//! Uniform refinement: a set of entities that is replaced, pass by pass, by
//! the children of its elements until it is large enough.
use vstd::prelude::*;
use vstd::arithmetic::power::{lemma_pow0, pow};
use crate::model::views;
use crate::triangle::{ToTriangle, Triangle};

verus! {

/// How many elements a set must have for `SubdivisionSet::subdivide` to
/// stop refining it.
pub const REFINEMENT_BUDGET: usize = 1000;

/// An entity that can be cut into children of its own type.  `S` is the
/// scalar that the cut is computed with.
///
/// The contract follows the convention of vstd's operator traits:
/// `subdivide_req` says when the method may be called, and where the type
/// promises `obeys_subdivide_spec`, the children are those that
/// `subdivide_spec` names.  What holds of the children whether or not the
/// type promises that, `subdivides_to` says.  Every entity of a type has
/// the same number of children, its `fanout`, which is at least two.
pub trait Subdivide<S>: Sized + View {
    spec fn subdivide_req(&self) -> bool;

    spec fn subdivides_to(&self, children: Seq<Self>) -> bool;

    spec fn obeys_subdivide_spec() -> bool;

    spec fn subdivide_spec(v: Self::V) -> Seq<Self::V>;

    spec fn fanout() -> nat;

    proof fn lemma_fanout()
        ensures
            Self::fanout() >= 2,
            forall|v: Self::V| #[trigger] Self::subdivide_spec(v).len() == Self::fanout(),
    ;

    fn subdivide(&self) -> (r: Vec<Self>)
        requires
            self.subdivide_req(),
        ensures
            r@.len() == Self::fanout(),
            forall|i: int| 0 <= i < r@.len() ==> (#[trigger] r@[i]).subdivide_req(),
            self.subdivides_to(r@),
            Self::obeys_subdivide_spec() ==> views(r@) == Self::subdivide_spec(self@),
    ;
}

/// One pass of refinement has made `children` of `parents`: every parent
/// has its children in the place of its own, in order.
pub open spec fn is_pass<S, T: Subdivide<S>>(parents: Seq<T>, children: Seq<T>) -> bool {
    &&& children.len() == parents.len() * T::fanout()
    &&& forall|e: int|
        0 <= e < parents.len() ==> (#[trigger] parents[e]).subdivides_to(
            children.subrange(e * T::fanout(), (e + 1) * T::fanout()),
        )
}

/// `k` passes of refinement have made `leaves` of `parents`.
pub open spec fn is_refined<S, T: Subdivide<S>>(parents: Seq<T>, leaves: Seq<T>, k: nat) -> bool
    decreases k,
{
    if k == 0 {
        leaves == parents
    } else {
        exists|middle: Seq<T>|
            is_refined::<S, T>(parents, middle, (k - 1) as nat) && #[trigger] is_pass::<S, T>(
                middle,
                leaves,
            )
    }
}

/// One more pass makes one more level of refinement.
pub proof fn lemma_one_more_pass<S, T: Subdivide<S>>(
    parents: Seq<T>,
    middle: Seq<T>,
    leaves: Seq<T>,
    k: nat,
)
    requires
        is_refined::<S, T>(parents, middle, k),
        is_pass::<S, T>(middle, leaves),
    ensures
        is_refined::<S, T>(parents, leaves, k + 1),
{
    assert(is_refined::<S, T>(parents, middle, ((k + 1) - 1) as nat));
}

/// What holds of a set before and after it is refined up to a budget: the
/// set has gone through as many passes as its size needs to reach the
/// budget, each of which has multiplied its size; so the budget is met,
/// and overshot by less than one pass makes.  Where the type promises it,
/// the elements are those that its spec function names.
pub open spec fn refines_to<S, T: Subdivide<S>>(before: Seq<T>, after: Seq<T>, budget: nat) -> bool {
    let passes = passes_needed(before.len(), budget, T::fanout());
    &&& after.len() == before.len() * pow(T::fanout() as int, passes)
    &&& after.len() >= budget
    &&& before.len() < budget ==> after.len() < budget * T::fanout()
    &&& forall|i: int| 0 <= i < after.len() ==> (#[trigger] after[i]).subdivide_req()
    &&& is_refined::<S, T>(before, after, passes)
    &&& T::obeys_subdivide_spec() ==> views(after) == refine_times::<S, T>(views(before), passes)
}

/// One pass of refinement: the children of every element, in order.
pub open spec fn refine_once<S, T: Subdivide<S>>(s: Seq<T::V>) -> Seq<T::V>
    decreases s.len(),
{
    if s.len() == 0 {
        Seq::empty()
    } else {
        refine_once::<S, T>(s.drop_last()) + T::subdivide_spec(s.last())
    }
}

/// `k` passes of refinement.
pub open spec fn refine_times<S, T: Subdivide<S>>(s: Seq<T::V>, k: nat) -> Seq<T::V>
    decreases k,
{
    if k == 0 {
        s
    } else {
        refine_once::<S, T>(refine_times::<S, T>(s, (k - 1) as nat))
    }
}

/// How many passes it takes a set of `len` elements, each pass multiplying
/// its size by `fanout`, to reach `budget` elements.
pub open spec fn passes_needed(len: nat, budget: nat, fanout: nat) -> nat
    decreases
            if len < budget {
                budget - len
            } else {
                0
            },
    via passes_needed_decreases
{
    if len >= budget || len == 0 || fanout < 2 {
        0
    } else {
        1 + passes_needed(len * fanout, budget, fanout)
    }
}

#[via_fn]
proof fn passes_needed_decreases(len: nat, budget: nat, fanout: nat) {
    if !(len >= budget || len == 0 || fanout < 2) {
        assert(len * fanout > len) by (nonlinear_arith)
            requires
                len >= 1,
                fanout >= 2,
        ;
    }
}

/// Refinement stops at the first pass that meets the budget: after fewer
/// passes than are needed, the set is still smaller than the budget.
pub proof fn lemma_passes_needed_is_least(len: nat, budget: nat, fanout: nat, fewer: nat)
    requires
        fewer < passes_needed(len, budget, fanout),
    ensures
        len * pow(fanout as int, fewer) < budget,
    decreases fewer,
{
    reveal(pow);
    if fewer == 0 {
        lemma_pow0(fanout as int);
        assert(len * 1 == len);
    } else {
        assert(len * fanout > len) by (nonlinear_arith)
            requires
                len >= 1,
                fanout >= 2,
        ;
        lemma_passes_needed_is_least(len * fanout, budget, fanout, (fewer - 1) as nat);
        assert(len * fanout * pow(fanout as int, (fewer - 1) as nat) == len * (fanout * pow(
            fanout as int,
            (fewer - 1) as nat,
        ))) by (nonlinear_arith);
    }
}

/// One pass multiplies the number of elements by the fanout.
pub proof fn lemma_refine_once_len<S, T: Subdivide<S>>(s: Seq<T::V>)
    ensures
        refine_once::<S, T>(s).len() == s.len() * T::fanout(),
    decreases s.len(),
{
    T::lemma_fanout();
    if s.len() > 0 {
        lemma_refine_once_len::<S, T>(s.drop_last());
        assert((s.len() - 1) * T::fanout() + T::fanout() == s.len() * T::fanout())
            by (nonlinear_arith);
    } else {
        assert(0 * T::fanout() == 0);
    }
}

/// `k` passes multiply the number of elements by the `k`-th power of the
/// fanout.
pub proof fn lemma_refine_times_len<S, T: Subdivide<S>>(s: Seq<T::V>, k: nat)
    ensures
        refine_times::<S, T>(s, k).len() == s.len() * pow(T::fanout() as int, k),
    decreases k,
{
    let f = T::fanout() as int;
    if k == 0 {
        lemma_pow0(f);
    } else {
        let before = (k - 1) as nat;
        lemma_refine_times_len::<S, T>(s, before);
        lemma_refine_once_len::<S, T>(refine_times::<S, T>(s, before));
        assert(pow(f, k) == f * pow(f, before)) by {
            reveal(pow);
        }
        assert(s.len() * pow(f, before) * f == s.len() * (f * pow(f, before)))
            by (nonlinear_arith);
    }
}

/// An ordered collection of entities of one type, refined as a whole.
pub struct SubdivisionSet<T> {
    pub elements: Vec<T>,
}

impl<T> SubdivisionSet<T> {
    /// An empty set.
    pub fn new() -> (r: Self)
        ensures
            r.elements@.len() == 0,
    {
        SubdivisionSet { elements: Vec::<T>::new() }
    }

    /// Replaces the elements by the children of every element, pass after
    /// pass, until there are at least `budget` of them.  Every pass cuts
    /// every element, so the last pass may overshoot the budget.
    pub fn refine<S>(&mut self, budget: usize) where T: Subdivide<S>
        requires
            old(self).elements@.len() > 0,
            forall|i: int|
                0 <= i < old(self).elements@.len() ==> (#[trigger] old(self).elements@[i]).subdivide_req(),
        ensures
            refines_to::<S, T>(old(self).elements@, final(self).elements@, budget as nat),
    {
        let ghost first = self.elements@;
        let ghost start = views(self.elements@);
        let ghost f = T::fanout();
        let ghost k: nat = 0;
        proof {
            T::lemma_fanout();
            lemma_pow0(f as int);
        }
        while self.elements.len() < budget
            invariant
                f == T::fanout(),
                f >= 2,
                start.len() == old(self).elements@.len(),
                start.len() > 0,
                self.elements@.len() > 0,
                self.elements@.len() == start.len() * pow(f as int, k),
                k == 0 ==> self.elements@ == old(self).elements@,
                k > 0 ==> self.elements@.len() < budget * f,
                first == old(self).elements@,
                is_refined::<S, T>(first, self.elements@, k),
                k + passes_needed(self.elements@.len(), budget as nat, f) == passes_needed(
                    start.len(),
                    budget as nat,
                    f,
                ),
                forall|i: int|
                    0 <= i < self.elements@.len() ==> (#[trigger] self.elements@[i]).subdivide_req(),
                T::obeys_subdivide_spec() ==> views(self.elements@) == refine_times::<S, T>(start, k),
            decreases
                    if self.elements@.len() < budget {
                        budget - self.elements@.len()
                    } else {
                        0
                    },
        {
            let ghost parents = views(self.elements@);
            let count = self.elements.len();
            let mut new_elements = Vec::<T>::new();
            let mut at: usize = 0;
            while at < count
                invariant
                    at <= count,
                    count == self.elements@.len(),
                    f == T::fanout(),
                    f >= 2,
                    parents == views(self.elements@),
                    new_elements@.len() == at * f,
                    forall|i: int|
                        0 <= i < self.elements@.len() ==> (
                        #[trigger] self.elements@[i]).subdivide_req(),
                    forall|i: int|
                        0 <= i < new_elements@.len() ==> (#[trigger] new_elements@[i]).subdivide_req(),
                    forall|e: int|
                        0 <= e < at ==> (#[trigger] self.elements@[e]).subdivides_to(
                            new_elements@.subrange(e * f, (e + 1) * f),
                        ),
                    T::obeys_subdivide_spec() ==> views(new_elements@) == refine_once::<S, T>(
                        parents.subrange(0, at as int),
                    ),
                decreases count - at,
            {
                let ghost grown = new_elements@;
                let mut subdivided = self.elements[at].subdivide();
                let ghost children = subdivided@;
                new_elements.append(&mut subdivided);
                proof {
                    assert(new_elements@ == grown + children);
                    assert((at + 1) * f == at * f + f) by (nonlinear_arith);
                    assert forall|e: int| 0 <= e < at + 1 implies (#[trigger] self.elements@[e]).subdivides_to(
                        new_elements@.subrange(e * f, (e + 1) * f),
                    ) by {
                        if e < at {
                            assert((e + 1) * f <= at * f) by (nonlinear_arith)
                                requires
                                    e + 1 <= at,
                                    f >= 0,
                            ;
                            assert(0 <= e * f <= (e + 1) * f) by (nonlinear_arith)
                                requires
                                    0 <= e,
                                    f >= 0,
                            ;
                            assert(new_elements@.subrange(e * f, (e + 1) * f) =~= grown.subrange(
                                e * f,
                                (e + 1) * f,
                            ));
                        } else {
                            assert(new_elements@.subrange(e * f, (e + 1) * f) =~= children);
                        }
                    }
                    if T::obeys_subdivide_spec() {
                        let upto = parents.subrange(0, at + 1);
                        assert(upto.drop_last() =~= parents.subrange(0, at as int));
                        assert(upto.last() == self.elements@[at as int]@);
                        assert(views(new_elements@) =~= views(grown) + views(children));
                    }
                }
                at += 1;
            }
            proof {
                assert(parents.subrange(0, count as int) =~= parents);
                assert(pow(f as int, k + 1) == f * pow(f as int, k)) by {
                    reveal(pow);
                }
                assert(start.len() * pow(f as int, k) * f == start.len() * (f * pow(f as int, k)))
                    by (nonlinear_arith);
                assert(count * f >= 2 * count) by (nonlinear_arith)
                    requires
                        f >= 2,
                        count >= 0,
                ;
                assert(new_elements@.len() == count * f);
                assert(count * f < budget * f) by (nonlinear_arith)
                    requires
                        count < budget,
                        f >= 2,
                ;
                lemma_one_more_pass::<S, T>(first, self.elements@, new_elements@, k);
                k = k + 1;
            }
            self.elements = new_elements;
        }
    }

    /// Refines the set until it holds at least `REFINEMENT_BUDGET` elements.
    pub fn subdivide<S>(&mut self) where T: Subdivide<S>
        requires
            old(self).elements@.len() > 0,
            forall|i: int|
                0 <= i < old(self).elements@.len() ==> (#[trigger] old(self).elements@[i]).subdivide_req(),
        ensures
            refines_to::<S, T>(
                old(self).elements@,
                final(self).elements@,
                REFINEMENT_BUDGET as nat,
            ),
    {
        self.refine::<S>(REFINEMENT_BUDGET)
    }
}

/// How many triangles the first `upto` elements flatten to, together.
pub open spec fn triangles_upto<T, C, E: ToTriangle<T, C>>(elements: Seq<E>, upto: nat) -> nat
    decreases upto,
{
    if upto == 0 {
        0
    } else {
        triangles_upto::<T, C, E>(elements, (upto - 1) as nat) + elements[upto
            - 1].triangle_count()
    }
}

/// The count of triangles grows with the number of elements counted.
pub proof fn lemma_triangles_upto_grows<T, C, E: ToTriangle<T, C>>(
    elements: Seq<E>,
    fewer: nat,
    more: nat,
)
    requires
        fewer <= more,
    ensures
        triangles_upto::<T, C, E>(elements, fewer) <= triangles_upto::<T, C, E>(elements, more),
    decreases more,
{
    if fewer < more {
        lemma_triangles_upto_grows::<T, C, E>(elements, fewer, (more - 1) as nat);
    }
}

impl<T, C, E: ToTriangle<T, C>> ToTriangle<T, C> for SubdivisionSet<E> {
    open spec fn to_triangles_req(&self) -> bool {
        forall|e: int| 0 <= e < self.elements@.len() ==> (#[trigger] self.elements@[e]).to_triangles_req()
    }

    open spec fn triangle_count(&self) -> nat {
        triangles_upto::<T, C, E>(self.elements@, self.elements@.len())
    }

    open spec fn flattens_to(&self, triangles: Seq<Triangle<T, C>>) -> bool {
        forall|e: int|
            0 <= e < self.elements@.len() ==> (#[trigger] self.elements@[e]).flattens_to(
                triangles.subrange(
                    triangles_upto::<T, C, E>(self.elements@, e as nat) as int,
                    triangles_upto::<T, C, E>(self.elements@, (e + 1) as nat) as int,
                ),
            )
    }

    /// The triangles of every element, in the order of the elements.
    fn to_triangles(&self) -> (r: Vec<Triangle<T, C>>) {
        let mut triangles = Vec::<Triangle<T, C>>::new();
        let mut at: usize = 0;
        while at < self.elements.len()
            invariant
                at <= self.elements@.len(),
                self.to_triangles_req(),
                triangles@.len() == triangles_upto::<T, C, E>(self.elements@, at as nat),
                forall|e: int|
                    0 <= e < at ==> (#[trigger] self.elements@[e]).flattens_to(
                        triangles@.subrange(
                            triangles_upto::<T, C, E>(self.elements@, e as nat) as int,
                            triangles_upto::<T, C, E>(self.elements@, (e + 1) as nat) as int,
                        ),
                    ),
            decreases self.elements@.len() - at,
        {
            let ghost before = triangles@;
            let mut chunk = self.elements[at].to_triangles();
            let ghost added = chunk@;
            triangles.append(&mut chunk);
            proof {
                assert(triangles@ == before + added);
                assert forall|e: int| 0 <= e < at + 1 implies (#[trigger] self.elements@[e]).flattens_to(
                    triangles@.subrange(
                        triangles_upto::<T, C, E>(self.elements@, e as nat) as int,
                        triangles_upto::<T, C, E>(self.elements@, (e + 1) as nat) as int,
                    ),
                ) by {
                    let from = triangles_upto::<T, C, E>(self.elements@, e as nat) as int;
                    let to = triangles_upto::<T, C, E>(self.elements@, (e + 1) as nat) as int;
                    if e < at {
                        lemma_triangles_upto_grows::<T, C, E>(
                            self.elements@,
                            (e + 1) as nat,
                            at as nat,
                        );
                        assert(triangles@.subrange(from, to) =~= before.subrange(from, to));
                    } else {
                        assert(triangles@.subrange(from, to) =~= added);
                    }
                }
            }
            at += 1;
        }
        triangles
    }
}

} // verus!
