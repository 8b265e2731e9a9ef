//! Bézier curves: a row of control points, evaluated and split by the
//! triangular scheme.
use vstd::prelude::*;
use vstd::slice::slice_to_vec;
use core::ops::{Add, Mul, Sub};
use crate::math::{
    blends_exactly,
    can_blend,
    compute_triangular_scheme,
    de_casteljau,
    left_edge,
    lemma_scheme_index,
    lemma_level_offset_total,
    level_offset,
    right_edge,
    triangular,
};
use crate::bezier::line::{line, split_line, step};

verus! {

/// A Bézier curve of degree `N`, with `N + 1` control points of type `T`.
pub struct BezierCurve<T, const N: usize> {
    points: Vec<T>,
}

impl<T, const N: usize> BezierCurve<T, N> {
    #[verifier::type_invariant]
    spec fn well_formed(self) -> bool {
        self.points@.len() == N + 1
    }
}

impl<T, const N: usize> View for BezierCurve<T, N> {
    type V = Seq<T>;

    closed spec fn view(&self) -> Seq<T> {
        self.points@
    }
}

impl<T: Copy, const N: usize> BezierCurve<T, N> {
    /// Makes a curve from its control points.
    pub fn new<const K: usize>(points: [T; K]) -> (r: Self)
        requires
            K == N + 1,
        ensures
            r@ == points@,
    {
        BezierCurve { points: slice_to_vec(points.as_slice()) }
    }

    /// The control points.
    pub fn points(&self) -> (r: &Vec<T>)
        ensures
            r@ == self@,
            self@.len() == N + 1,
    {
        proof {
            use_type_invariant(self);
        }
        &self.points
    }

    /// The point of the curve at parameter `t`: the single value of the
    /// last level of the scheme.
    pub fn evaluate<S>(&self, t: S) -> (r: T) where
        S: Copy + From<u8> + Sub<Output = S>,
        T: Add<Output = T> + Mul<S, Output = T>,

        requires
            can_blend::<S, T>(),
        ensures
            blends_exactly::<S, T>() ==> r == de_casteljau(self@, t, N as nat, 0),
    {
        proof {
            use_type_invariant(self);
        }
        let scheme = compute_triangular_scheme(self.points.as_slice(), t);
        proof {
            lemma_scheme_index(self.points@, t, N as nat, 0);
            lemma_level_offset_total((N + 1) as nat);
            assert(level_offset((N + 1) as nat, (N + 1) as nat) == level_offset(
                (N + 1) as nat,
                N as nat,
            ) + 1);
        }
        scheme[scheme.len() - 1]
    }

    /// Splits the curve at parameter `t` into the part before and the part
    /// after it.  The two parts meet in the curve's point at `t` and keep
    /// the curve's end points.
    pub fn subdivide<S>(&self, t: S) -> (r: (Self, Self)) where
        S: Copy + From<u8> + Sub<Output = S>,
        T: Add<Output = T> + Mul<S, Output = T>,

        requires
            can_blend::<S, T>(),
        ensures
            r.0@.len() == N + 1,
            r.1@.len() == N + 1,
            r.0@[0] == self@[0],
            r.1@[N as int] == self@[N as int],
            r.0@[N as int] == r.1@[0],
            blends_exactly::<S, T>() ==> r.0@ == left_edge(self@, t) && r.1@ == right_edge(
                self@,
                t,
            ),
    {
        proof {
            use_type_invariant(self);
        }
        let mut before = slice_to_vec(self.points.as_slice());
        let mut after = slice_to_vec(self.points.as_slice());
        let count = self.points.len();
        split_line(&self.points, 0, 1, count, t, &mut before, &mut after);
        proof {
            assert(line(self.points@, 0, 1, (N + 1) as nat) =~= self.points@);
            if blends_exactly::<S, T>() {
                assert forall|k: int| 0 <= k < N + 1 implies before@[k] == left_edge(self@, t)[k]
                    && after@[k] == right_edge(self@, t)[k] by {
                    assert(step(0, 1, k) == k);
                }
                assert(before@ =~= left_edge(self@, t));
                assert(after@ =~= right_edge(self@, t));
            }
        }
        (BezierCurve { points: before }, BezierCurve { points: after })
    }
}

} // verus!
