//! Mathematical models of collections.
use vstd::prelude::*;

verus! {

/// What the elements of a sequence are, mathematically.
pub open spec fn views<T: View>(s: Seq<T>) -> Seq<T::V> {
    Seq::new(s.len(), |i: int| s[i]@)
}

} // verus!
