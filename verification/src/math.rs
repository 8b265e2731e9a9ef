//! The interpolation kernel: linear interpolation between two control values
//! and the triangular de Casteljau scheme built from it.
//!
//! Control values and the scalar parameter are generic.  A control value `T`
//! needs `+` with itself and `*` with the scalar `S`; the scalar needs a one
//! (taken through `From<u8>`) and `-`.  Contracts follow the convention that
//! vstd uses for the operator traits: a function asks that the operators may
//! be applied (`can_blend`), and pins its result down to the operators' spec
//! functions whenever the types promise to follow them (`blends_exactly`).
//! What does not depend on arithmetic at all, such as which slots are plain
//! copies of the input, is ensured without that condition.
use vstd::prelude::*;
use vstd::std_specs::ops::{AddSpec, MulSpec, SubSpec};
use vstd::std_specs::convert::FromSpec;
use core::ops::{Add, Mul, Sub};

verus! {

/// A parametric direction of a surface.
pub enum Axis2D {
    U,
    V,
}

/// A coordinate axis in space.
pub enum Axis3D {
    X,
    Y,
    Z,
}

/// The `n`-th triangular number, `0 + 1 + ... + n`.
pub open spec fn triangular(n: nat) -> nat {
    n * (n + 1) / 2
}

/// Each triangular number exceeds its predecessor by its own index, and the
/// sequence starts at zero.
pub proof fn lemma_triangular_step(n: nat)
    ensures
        triangular(0) == 0,
        n >= 1 ==> triangular(n) - triangular((n - 1) as nat) == n,
{
    if n >= 1 {
        let m = (n - 1) as nat;
        assert(n * (n + 1) == m * (m + 1) + 2 * n) by (nonlinear_arith)
            requires
                n == m + 1,
        ;
    }
}

/// Computes the `n`-th triangular number.
pub fn triangular_number(n: usize) -> (r: usize)
    requires
        n * (n + 1) <= usize::MAX,
    ensures
        r == triangular(n as nat),
{
    assert(n + 1 <= usize::MAX) by (nonlinear_arith)
        requires
            n * (n + 1) <= usize::MAX,
            0 <= n <= usize::MAX,
    ;
    n * (n + 1) / 2
}

/// The scalar one.
pub open spec fn one<S: From<u8>>() -> S {
    S::from_spec(1u8)
}

/// `a * (1 - t) + b * t`, over the spec functions of the operators.
pub open spec fn lerp_spec<S, T>(a: T, b: T, t: S) -> T where
    S: Copy + From<u8> + Sub<Output = S>,
    T: Copy + Add<Output = T> + Mul<S, Output = T>,
 {
    a.mul_spec(one::<S>().sub_spec(t)).add_spec(b.mul_spec(t))
}

/// The operators that interpolation uses may be applied to all values:
/// any two scalars may be subtracted, any two control values added, and any
/// control value scaled by any scalar.
pub open spec fn can_blend<S, T>() -> bool where
    S: Copy + From<u8> + Sub<Output = S>,
    T: Copy + Add<Output = T> + Mul<S, Output = T>,
 {
    &&& forall|a: S, b: S| #[trigger] a.sub_req(b)
    &&& forall|a: T, b: T| #[trigger] a.add_req(b)
    &&& forall|a: T, s: S| #[trigger] a.mul_req(s)
}

/// The operators that interpolation uses return what their spec functions
/// say.  Types whose arithmetic is exact promise this; floating point does
/// not.
pub open spec fn blends_exactly<S, T>() -> bool where
    S: Copy + From<u8> + Sub<Output = S>,
    T: Copy + Add<Output = T> + Mul<S, Output = T>,
 {
    &&& <S as FromSpec<u8>>::obeys_from_spec()
    &&& <S as SubSpec>::obeys_sub_spec()
    &&& <T as AddSpec>::obeys_add_spec()
    &&& <T as MulSpec<S>>::obeys_mul_spec()
}

/// Linear interpolation `a * (1 - t) + b * t`.  The parameter is not
/// restricted to the unit interval.
pub fn lerp<S, T>(a: T, b: T, t: S) -> (r: T) where
    S: Copy + From<u8> + Sub<Output = S>,
    T: Copy + Add<Output = T> + Mul<S, Output = T>,

    requires
        can_blend::<S, T>(),
    ensures
        blends_exactly::<S, T>() ==> r == lerp_spec(a, b, t),
{
    let unit = S::from(1u8);
    a * (unit - t) + b * t
}

/// The de Casteljau point of level `k` at position `i`: level 0 is the row
/// itself, and each further level interpolates neighbours of the one before.
pub open spec fn de_casteljau<S, T>(row: Seq<T>, t: S, k: nat, i: int) -> T where
    S: Copy + From<u8> + Sub<Output = S>,
    T: Copy + Add<Output = T> + Mul<S, Output = T>,

    decreases k,
{
    if k == 0 {
        row[i]
    } else {
        lerp_spec(
            de_casteljau(row, t, (k - 1) as nat, i),
            de_casteljau(row, t, (k - 1) as nat, i + 1),
            t,
        )
    }
}

/// Level `k` of the scheme as a sequence; it is `k` shorter than the row.
pub open spec fn level<S, T>(row: Seq<T>, t: S, k: nat) -> Seq<T> where
    S: Copy + From<u8> + Sub<Output = S>,
    T: Copy + Add<Output = T> + Mul<S, Output = T>,
 {
    Seq::new((row.len() - k) as nat, |i: int| de_casteljau(row, t, k, i))
}

/// The first `k` levels, one after the other.
pub open spec fn levels_upto<S, T>(row: Seq<T>, t: S, k: nat) -> Seq<T> where
    S: Copy + From<u8> + Sub<Output = S>,
    T: Copy + Add<Output = T> + Mul<S, Output = T>,

    decreases k,
{
    if k == 0 {
        Seq::empty()
    } else {
        levels_upto(row, t, (k - 1) as nat) + level(row, t, (k - 1) as nat)
    }
}

/// The whole triangular scheme of a row: all its levels, flattened.
pub open spec fn triangular_scheme<S, T>(row: Seq<T>, t: S) -> Seq<T> where
    S: Copy + From<u8> + Sub<Output = S>,
    T: Copy + Add<Output = T> + Mul<S, Output = T>,
 {
    levels_upto(row, t, row.len())
}

/// Where level `k` starts in the flattened scheme of a row of `n` values.
pub open spec fn level_offset(n: nat, k: nat) -> nat
    decreases k,
{
    if k == 0 {
        0
    } else {
        (level_offset(n, (k - 1) as nat) + n - (k - 1)) as nat
    }
}

/// The left edge of the scheme, top to bottom: the control values of the
/// part of the curve before the parameter.
pub open spec fn left_edge<S, T>(row: Seq<T>, t: S) -> Seq<T> where
    S: Copy + From<u8> + Sub<Output = S>,
    T: Copy + Add<Output = T> + Mul<S, Output = T>,
 {
    Seq::new(row.len(), |k: int| de_casteljau(row, t, k as nat, 0))
}

/// The right edge of the scheme, bottom to top: the control values of the
/// part of the curve after the parameter.
pub open spec fn right_edge<S, T>(row: Seq<T>, t: S) -> Seq<T> where
    S: Copy + From<u8> + Sub<Output = S>,
    T: Copy + Add<Output = T> + Mul<S, Output = T>,
 {
    Seq::new(row.len(), |i: int| de_casteljau(row, t, (row.len() - 1 - i) as nat, i))
}

/// Twice the offset of level `k` is `k * (2n - k + 1)`.
pub proof fn lemma_level_offset_closed(n: nat, k: nat)
    requires
        k <= n,
    ensures
        2 * level_offset(n, k) == k * (2 * n - k + 1),
    decreases k,
{
    if k > 0 {
        let j = (k - 1) as nat;
        lemma_level_offset_closed(n, j);
        assert(level_offset(n, k) == level_offset(n, j) + n - j);
        assert(k * (2 * n - k + 1) == j * (2 * n - j + 1) + 2 * (n - j)) by (nonlinear_arith)
            requires
                k == j + 1,
        ;
    } else {
        assert(0 * (2 * n - 0 + 1) == 0);
    }
}

/// Level offsets grow with the level, by the length of the level passed.
pub proof fn lemma_level_offset_step(n: nat, k: nat)
    requires
        k < n,
    ensures
        level_offset(n, k + 1) == level_offset(n, k) + (n - k),
{
}

/// The levels of a row of `n` values fill exactly `triangular(n)` slots.
pub proof fn lemma_level_offset_total(n: nat)
    ensures
        level_offset(n, n) == triangular(n),
{
    lemma_level_offset_closed(n, n);
    assert(n * (2 * n - n + 1) == n * (n + 1)) by (nonlinear_arith);
}

/// The first `k` levels of a row take up `level_offset(n, k)` slots.
pub proof fn lemma_levels_upto_len<S, T>(row: Seq<T>, t: S, k: nat) where
    S: Copy + From<u8> + Sub<Output = S>,
    T: Copy + Add<Output = T> + Mul<S, Output = T>,

    requires
        k <= row.len(),
    ensures
        levels_upto(row, t, k).len() == level_offset(row.len(), k),
    decreases k,
{
    if k > 0 {
        lemma_levels_upto_len(row, t, (k - 1) as nat);
    }
}

/// In the first `m` levels, slot `level_offset(n, k) + i` holds the de
/// Casteljau point of level `k` at position `i`.
pub proof fn lemma_levels_upto_index<S, T>(row: Seq<T>, t: S, m: nat, k: nat, i: int) where
    S: Copy + From<u8> + Sub<Output = S>,
    T: Copy + Add<Output = T> + Mul<S, Output = T>,

    requires
        k < m <= row.len(),
        0 <= i < row.len() - k,
    ensures
        level_offset(row.len(), k) + i < levels_upto(row, t, m).len(),
        levels_upto(row, t, m)[level_offset(row.len(), k) + i] == de_casteljau(row, t, k, i),
    decreases m,
{
    let before = (m - 1) as nat;
    lemma_levels_upto_len(row, t, before);
    lemma_levels_upto_len(row, t, m);
    if k < before {
        lemma_levels_upto_index(row, t, before, k, i);
    }
}

/// The scheme of a row of `n` values has `triangular(n)` slots, and slot
/// `level_offset(n, k) + i` holds the de Casteljau point of level `k` at
/// position `i`.
pub proof fn lemma_scheme_index<S, T>(row: Seq<T>, t: S, k: nat, i: int) where
    S: Copy + From<u8> + Sub<Output = S>,
    T: Copy + Add<Output = T> + Mul<S, Output = T>,

    requires
        k < row.len(),
        0 <= i < row.len() - k,
    ensures
        triangular_scheme(row, t).len() == triangular(row.len()),
        level_offset(row.len(), k) + i < triangular(row.len()),
        triangular_scheme(row, t)[level_offset(row.len(), k) + i] == de_casteljau(row, t, k, i),
{
    lemma_levels_upto_len(row, t, row.len());
    lemma_level_offset_total(row.len());
    lemma_levels_upto_index(row, t, row.len(), k, i);
}

/// Builds the triangular de Casteljau scheme of a row: the row itself, then
/// level after level of interpolated neighbours, down to the single value
/// that is the curve's point at the parameter.
pub fn compute_triangular_scheme<S, T>(elements: &[T], t: S) -> (triangle: Vec<T>) where
    S: Copy + From<u8> + Sub<Output = S>,
    T: Copy + Add<Output = T> + Mul<S, Output = T>,

    requires
        elements@.len() >= 1,
        can_blend::<S, T>(),
    ensures
        triangle@.len() == triangular(elements@.len()),
        triangle@.subrange(0, elements@.len() as int) == elements@,
        blends_exactly::<S, T>() ==> triangle@ == triangular_scheme(elements@, t),
{
    let n = elements.len();
    let mut triangle: Vec<T> = Vec::new();

    // copy the first row
    let mut i: usize = 0;
    while i < n
        invariant
            i <= n,
            n == elements@.len(),
            triangle@ == elements@.subrange(0, i as int),
        decreases n - i,
    {
        triangle.push(elements[i]);
        i += 1;
    }
    let mut row_len: usize = n - 1;
    let mut row_offset_prev: usize = 0;
    let mut row_offset_curr: usize = n;
    let ghost mut k: nat = 1;
    proof {
        assert(elements@.subrange(0, n as int) =~= elements@);
        assert(level(elements@, t, 0) =~= elements@);
        assert(levels_upto(elements@, t, 1) =~= elements@) by {
            reveal_with_fuel(levels_upto, 2);
        }
        assert(level_offset(n as nat, 1) == n) by {
            reveal_with_fuel(level_offset, 2);
        }
    }

    // each further level interpolates the one before it
    while row_len > 0
        invariant
            n == elements@.len(),
            can_blend::<S, T>(),
            1 <= k <= n,
            row_len == n - k,
            row_offset_prev == level_offset(n as nat, (k - 1) as nat),
            row_offset_curr == level_offset(n as nat, k),
            row_offset_curr == triangle@.len(),
            n <= row_offset_curr,
            triangle@.subrange(0, n as int) == elements@,
            blends_exactly::<S, T>() ==> triangle@ == levels_upto(elements@, t, k),
        decreases row_len,
    {
        let ghost done = triangle@;
        let mut i: usize = 0;
        while i < row_len
            invariant
                n == elements@.len(),
                can_blend::<S, T>(),
                1 <= k < n,
                row_len == n - k,
                i <= row_len,
                row_offset_prev == level_offset(n as nat, (k - 1) as nat),
                row_offset_curr == level_offset(n as nat, k),
                done.len() == row_offset_curr,
                n <= row_offset_curr,
                triangle@.len() == row_offset_curr + i,
                triangle@.subrange(0, done.len() as int) == done,
                done.subrange(0, n as int) == elements@,
                blends_exactly::<S, T>() ==> done == levels_upto(elements@, t, k),
                blends_exactly::<S, T>() ==> triangle@ == done + level(elements@, t, k).subrange(
                    0,
                    i as int,
                ),
            decreases row_len - i,
        {
            proof {
                lemma_level_offset_step(n as nat, (k - 1) as nat);
            }
            let a = triangle[row_offset_prev + i];
            let b = triangle[row_offset_prev + i + 1];
            let c = lerp(a, b, t);
            proof {
                if blends_exactly::<S, T>() {
                    lemma_levels_upto_index(elements@, t, k, (k - 1) as nat, i as int);
                    lemma_levels_upto_index(elements@, t, k, (k - 1) as nat, i + 1);
                    assert(a == done[row_offset_prev + i]);
                    assert(b == done[row_offset_prev + i + 1]);
                    assert(c == de_casteljau(elements@, t, k, i as int));
                    assert(level(elements@, t, k).subrange(0, i + 1) =~= level(
                        elements@,
                        t,
                        k,
                    ).subrange(0, i as int).push(c));
                }
            }
            let ghost before = triangle@;
            triangle.push(c);
            proof {
                assert(triangle@.subrange(0, done.len() as int) =~= before.subrange(
                    0,
                    done.len() as int,
                ));
                if blends_exactly::<S, T>() {
                    assert(triangle@ =~= done + level(elements@, t, k).subrange(0, i + 1));
                }
            }
            i += 1;
        }
        proof {
            lemma_level_offset_step(n as nat, k);
            assert(triangle@.subrange(0, n as int) =~= done.subrange(0, n as int));
            if blends_exactly::<S, T>() {
                assert(level(elements@, t, k).subrange(0, row_len as int) =~= level(
                    elements@,
                    t,
                    k,
                ));
                assert(triangle@ == levels_upto(elements@, t, k + 1));
            }
            assert(row_offset_curr + row_len == triangle.len());
            k = k + 1;
        }
        row_offset_prev = row_offset_curr;
        row_offset_curr += row_len;
        row_len -= 1;
    }
    proof {
        lemma_level_offset_total(n as nat);
    }
    triangle
}

/// Level `k` of a scheme of `n` values, which has `n - k` slots, ends within
/// the scheme.
pub proof fn lemma_level_offset_bound(n: nat, k: nat)
    requires
        k < n,
    ensures
        level_offset(n, k) + (n - k) <= level_offset(n, n),
    decreases n - k,
{
    lemma_level_offset_step(n, k);
    if k + 1 < n {
        lemma_level_offset_bound(n, k + 1);
    }
}

} // verus!
