//! Triangular Bézier patches.  They are containers only: how such a patch
//! is evaluated or split is not defined here.
use vstd::prelude::*;
use vstd::slice::slice_to_vec;
use crate::math::triangular;

verus! {

/// What a triangular patch is, mathematically: its control points and its
/// three corner colors.
pub struct TriangularPatch<T, C> {
    pub points: Seq<T>,
    pub colors: Seq<C>,
}

/// A triangular Bézier patch of degree `N`, with as many control points as
/// the triangular number of `N + 1`, and a color at each of its corners.
pub struct BezierTriangle<T, C, const N: usize> {
    points: Vec<T>,
    colors: [C; 3],
}

impl<T, C, const N: usize> BezierTriangle<T, C, N> {
    #[verifier::type_invariant]
    spec fn well_formed(self) -> bool {
        self.points@.len() == triangular((N + 1) as nat)
    }
}

impl<T, C, const N: usize> View for BezierTriangle<T, C, N> {
    type V = TriangularPatch<T, C>;

    closed spec fn view(&self) -> TriangularPatch<T, C> {
        TriangularPatch { points: self.points@, colors: self.colors@ }
    }
}

impl<T: Copy, C: Copy, const N: usize> BezierTriangle<T, C, N> {
    /// Makes a patch from its control points and its three corner colors.
    pub fn new<const K: usize>(points: [T; K], colors: [C; 3]) -> (r: Self)
        requires
            K == triangular((N + 1) as nat),
        ensures
            r@.points == points@,
            r@.colors == colors@,
    {
        BezierTriangle { points: slice_to_vec(points.as_slice()), colors }
    }

    /// The control points.
    pub fn points(&self) -> (r: &Vec<T>)
        ensures
            r@ == self@.points,
            self@.points.len() == triangular((N + 1) as nat),
    {
        proof {
            use_type_invariant(self);
        }
        &self.points
    }

    /// The three corner colors.
    pub fn colors(&self) -> (r: &[C; 3])
        ensures
            r@ == self@.colors,
    {
        &self.colors
    }
}

} // verus!
