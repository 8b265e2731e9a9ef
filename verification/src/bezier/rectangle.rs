//! Rectangular (tensor-product) Bézier patches and their subdivision.
//!
//! A patch of degree `N` in u and `M` in v holds `(N + 1) * (M + 1)` control
//! points, row by row: the point at column `i` and row `j` sits in slot
//! `j * (N + 1) + i`.  Its four corner colors are kept in the order
//! `(u, v) = (0, 0), (1, 0), (0, 1), (1, 1)`:
//!
//! ```text
//!   (0,0) -- u -- (1,0)        b_00 b_10 ... b_N0        c[0] - c[1]
//!     |             |          b_01          |            |      |
//!     v             |     ~    ...           |            |      |
//!     |             |          b_0M b_1M ... b_NM        c[2] - c[3]
//!   (0,1) ------- (1,1)
//! ```
use vstd::prelude::*;
use vstd::slice::slice_to_vec;
use vstd::std_specs::convert::FromSpec;
use vstd::std_specs::ops::DivSpec;
use core::ops::{Add, Div, Mul, Sub};
use bevy::math::Vec3;
use crate::bezier::grid::{
    column,
    lemma_off_column,
    lemma_off_row,
    lemma_slot,
    lemma_slot_in_grid,
    lemma_slot_of,
    row,
    slot,
};
use crate::bezier::line::{filled, split_line, step};
use crate::math::{Axis2D, blends_exactly, can_blend, left_edge, lerp, lerp_spec, right_edge};
use crate::model::views;
use crate::subdivision::Subdivide;
use crate::text::{chars_of, decimal, lines, split_lines};
use crate::triangle::{
    line_vectors,
    measures_exactly,
    read_vectors,
    Spatial,
    ToTriangle,
    Triangle,
};

verus! {

/// The control points of the child before the parameter: the left child of
/// a split along u, the top child of a split along v.  Each row (each
/// column) of it is the left edge of the scheme of the parent's row
/// (column).
pub open spec fn first_half_points<S, T>(
    points: Seq<T>,
    w: nat,
    h: nat,
    axis: Axis2D,
    t: S,
) -> Seq<T> where
    S: Copy + From<u8> + Sub<Output = S>,
    T: Copy + Add<Output = T> + Mul<S, Output = T>,
 {
    match axis {
        Axis2D::U => Seq::new(
            points.len(),
            |x: int| left_edge(row(points, w, x / (w as int)), t)[x % (w as int)],
        ),
        Axis2D::V => Seq::new(
            points.len(),
            |x: int| left_edge(column(points, w, h, x % (w as int)), t)[x / (w as int)],
        ),
    }
}

/// The control points of the child after the parameter: the right child of
/// a split along u, the bottom child of a split along v.  Each row (each
/// column) of it is the right edge of the scheme of the parent's row
/// (column), read from the bottom of the scheme upwards.
pub open spec fn second_half_points<S, T>(
    points: Seq<T>,
    w: nat,
    h: nat,
    axis: Axis2D,
    t: S,
) -> Seq<T> where
    S: Copy + From<u8> + Sub<Output = S>,
    T: Copy + Add<Output = T> + Mul<S, Output = T>,
 {
    match axis {
        Axis2D::U => Seq::new(
            points.len(),
            |x: int| right_edge(row(points, w, x / (w as int)), t)[x % (w as int)],
        ),
        Axis2D::V => Seq::new(
            points.len(),
            |x: int| right_edge(column(points, w, h, x % (w as int)), t)[x / (w as int)],
        ),
    }
}

/// The corner colors of the child before the parameter: the two corners on
/// the parent's side are kept, the two on the cut are interpolated along the
/// parent's edges.
pub open spec fn first_half_colors<S, C>(colors: Seq<C>, axis: Axis2D, t: S) -> Seq<C> where
    S: Copy + From<u8> + Sub<Output = S>,
    C: Copy + Add<Output = C> + Mul<S, Output = C>,
 {
    match axis {
        Axis2D::U => seq![
            colors[0],
            lerp_spec(colors[0], colors[1], t),
            colors[2],
            lerp_spec(colors[2], colors[3], t),
        ],
        Axis2D::V => seq![
            colors[0],
            colors[1],
            lerp_spec(colors[0], colors[2], t),
            lerp_spec(colors[1], colors[3], t),
        ],
    }
}

/// The corner colors of the child after the parameter.
pub open spec fn second_half_colors<S, C>(colors: Seq<C>, axis: Axis2D, t: S) -> Seq<C> where
    S: Copy + From<u8> + Sub<Output = S>,
    C: Copy + Add<Output = C> + Mul<S, Output = C>,
 {
    match axis {
        Axis2D::U => seq![
            lerp_spec(colors[0], colors[1], t),
            colors[1],
            lerp_spec(colors[2], colors[3], t),
            colors[3],
        ],
        Axis2D::V => seq![
            lerp_spec(colors[0], colors[2], t),
            lerp_spec(colors[1], colors[3], t),
            colors[2],
            colors[3],
        ],
    }
}

/// The two children of a split meet: the last column (row) of the first is
/// the first column (row) of the second, value by value.
pub open spec fn shares_seam<T>(first: Seq<T>, second: Seq<T>, w: nat, h: nat, axis: Axis2D) -> bool {
    match axis {
        Axis2D::U => forall|j: int|
            0 <= j < h ==> first[#[trigger] slot(w, w - 1, j)] == second[slot(w, 0, j)],
        Axis2D::V => forall|i: int|
            0 <= i < w ==> first[#[trigger] slot(w, i, h - 1)] == second[slot(w, i, 0)],
    }
}

/// The sides of the children that are not on the cut are the parent's sides,
/// unchanged.
pub open spec fn keeps_outer_boundary<T>(
    parent: Seq<T>,
    first: Seq<T>,
    second: Seq<T>,
    w: nat,
    h: nat,
    axis: Axis2D,
) -> bool {
    match axis {
        Axis2D::U => forall|j: int|
            0 <= j < h ==> first[#[trigger] slot(w, 0, j)] == parent[slot(w, 0, j)] && second[slot(
                w,
                w - 1,
                j,
            )] == parent[slot(w, w - 1, j)],
        Axis2D::V => forall|i: int|
            0 <= i < w ==> first[#[trigger] slot(w, i, 0)] == parent[slot(w, i, 0)] && second[slot(
                w,
                i,
                h - 1,
            )] == parent[slot(w, i, h - 1)],
    }
}

/// The corner colors away from the cut are the parent's, and the two
/// children carry the same colors along the cut.
pub open spec fn keeps_outer_colors<C>(
    parent: Seq<C>,
    first: Seq<C>,
    second: Seq<C>,
    axis: Axis2D,
) -> bool {
    match axis {
        Axis2D::U => {
            &&& first[0] == parent[0]
            &&& first[2] == parent[2]
            &&& second[1] == parent[1]
            &&& second[3] == parent[3]
            &&& first[1] == second[0]
            &&& first[3] == second[2]
        },
        Axis2D::V => {
            &&& first[0] == parent[0]
            &&& first[1] == parent[1]
            &&& second[2] == parent[2]
            &&& second[3] == parent[3]
            &&& first[2] == second[0]
            &&& first[3] == second[1]
        },
    }
}

/// What a patch is, mathematically: its grid of control points, row by row,
/// and its four corner colors.
pub struct Patch<T, C> {
    pub points: Seq<T>,
    pub colors: Seq<C>,
}

impl<T, C> Patch<T, C> {
    /// The patch has the points of a grid `w` wide and `h` high, and four
    /// colors.
    pub open spec fn fits(self, w: nat, h: nat) -> bool {
        &&& self.points.len() == w * h
        &&& self.colors.len() == 4
    }

    /// The control point at column `i`, row `j` of a grid `w` wide.
    pub open spec fn at(self, w: nat, i: int, j: int) -> T {
        self.points[slot(w, i, j)]
    }

    /// The two children of a split of this patch, as a grid `w` wide and `h`
    /// high, along `axis` at parameter `t`.
    pub open spec fn split<S>(self, w: nat, h: nat, axis: Axis2D, t: S) -> (Self, Self) where
        S: Copy + From<u8> + Sub<Output = S>,
        T: Copy + Add<Output = T> + Mul<S, Output = T>,
        C: Copy + Add<Output = C> + Mul<S, Output = C>,
     {
        (
            Patch {
                points: first_half_points(self.points, w, h, axis, t),
                colors: first_half_colors(self.colors, axis, t),
            },
            Patch {
                points: second_half_points(self.points, w, h, axis, t),
                colors: second_half_colors(self.colors, axis, t),
            },
        )
    }

    /// The four children of a split along u followed by a split of each half
    /// along v, both at `t`: top left, bottom left, top right, bottom right.
    pub open spec fn quarter<S>(self, w: nat, h: nat, t: S) -> Seq<Self> where
        S: Copy + From<u8> + Sub<Output = S>,
        T: Copy + Add<Output = T> + Mul<S, Output = T>,
        C: Copy + Add<Output = C> + Mul<S, Output = C>,
     {
        let (left, right) = self.split(w, h, Axis2D::U, t);
        let (top_left, bottom_left) = left.split(w, h, Axis2D::V, t);
        let (top_right, bottom_right) = right.split(w, h, Axis2D::V, t);
        seq![top_left, bottom_left, top_right, bottom_right]
    }
}

/// The scalar one half, as one divided by two.
pub open spec fn half<S: From<u8> + Div<Output = S>>() -> S {
    S::from_spec(1u8).div_spec(S::from_spec(2u8))
}

/// Any two scalars may be divided.
pub open spec fn can_halve<S: From<u8> + Div<Output = S>>() -> bool {
    forall|a: S, b: S| #[trigger] a.div_req(b)
}

/// Conversion from `u8` and division of scalars return what their spec
/// functions say.
pub open spec fn halves_exactly<S: From<u8> + Div<Output = S>>() -> bool {
    &&& <S as FromSpec<u8>>::obeys_from_spec()
    &&& <S as DivSpec>::obeys_div_spec()
}

/// A rectangular Bézier patch of degree `N` in u and `M` in v, with control
/// points of type `T` and corner colors of type `C`.
#[derive(Debug)]
pub struct BezierRectangle<T, C, const N: usize, const M: usize> {
    points: Vec<T>,
    colors: [C; 4],
}

impl<T, C, const N: usize, const M: usize> BezierRectangle<T, C, N, M> {
    #[verifier::type_invariant]
    spec fn well_formed(self) -> bool {
        self.points@.len() == (N + 1) * (M + 1)
    }
}

impl<T, C, const N: usize, const M: usize> View for BezierRectangle<T, C, N, M> {
    type V = Patch<T, C>;

    closed spec fn view(&self) -> Patch<T, C> {
        Patch { points: self.points@, colors: self.colors@ }
    }
}

/// What holds of a patch and the two children of its split along `axis` at
/// `t`.  Whatever the arithmetic does, the children meet along the cut and
/// keep the parent's outer sides and outer colors.  Where the arithmetic is
/// exact, the children are the ones that `Patch::split` describes.
pub open spec fn is_split<S, T, C>(
    parent: Patch<T, C>,
    first: Patch<T, C>,
    second: Patch<T, C>,
    w: nat,
    h: nat,
    axis: Axis2D,
    t: S,
) -> bool where
    S: Copy + From<u8> + Sub<Output = S>,
    T: Copy + Add<Output = T> + Mul<S, Output = T>,
    C: Copy + Add<Output = C> + Mul<S, Output = C>,
 {
    &&& first.fits(w, h)
    &&& second.fits(w, h)
    &&& shares_seam(first.points, second.points, w, h, axis)
    &&& keeps_outer_boundary(parent.points, first.points, second.points, w, h, axis)
    &&& keeps_outer_colors(parent.colors, first.colors, second.colors, axis)
    &&& blends_exactly::<S, T>() ==> {
        &&& first.points == first_half_points(parent.points, w, h, axis, t)
        &&& second.points == second_half_points(parent.points, w, h, axis, t)
    }
    &&& blends_exactly::<S, C>() ==> {
        &&& first.colors == first_half_colors(parent.colors, axis, t)
        &&& second.colors == second_half_colors(parent.colors, axis, t)
    }
}

impl<T: Copy, C: Copy, const N: usize, const M: usize> BezierRectangle<T, C, N, M> {
    /// Makes a patch from its control points, row by row, and its four
    /// corner colors.
    pub fn new<const K: usize>(points: [T; K], colors: [C; 4]) -> (r: Self)
        requires
            K == (N + 1) * (M + 1),
        ensures
            r@.points == points@,
            r@.colors == colors@,
            r@.fits((N + 1) as nat, (M + 1) as nat),
    {
        let held = slice_to_vec(points.as_slice());
        BezierRectangle { points: held, colors }
    }

    /// The control points, row by row.
    pub fn points(&self) -> (r: &Vec<T>)
        ensures
            r@ == self@.points,
            self@.fits((N + 1) as nat, (M + 1) as nat),
    {
        proof {
            use_type_invariant(self);
        }
        &self.points
    }

    /// The four corner colors.
    pub fn colors(&self) -> (r: &[C; 4])
        ensures
            r@ == self@.colors,
            self@.fits((N + 1) as nat, (M + 1) as nat),
    {
        proof {
            use_type_invariant(self);
        }
        &self.colors
    }

    /// Splits the patch along u: every row is split by the scheme.
    fn subdivide_u<S>(&self, t: S) -> (r: (Self, Self)) where
        S: Copy + From<u8> + Sub<Output = S>,
        T: Add<Output = T> + Mul<S, Output = T>,
        C: Add<Output = C> + Mul<S, Output = C>,

        requires
            can_blend::<S, T>(),
            can_blend::<S, C>(),
        ensures
            is_split(self@, r.0@, r.1@, (N + 1) as nat, (M + 1) as nat, Axis2D::U, t),
    {
        proof {
            use_type_invariant(self);
        }
        let total = self.points.len();
        assert(N + 1 <= total && M + 1 <= total && total >= 1) by (nonlinear_arith)
            requires
                total == (N + 1) * (M + 1),
        ;
        let w = N + 1;
        let h = M + 1;
        let ghost parent = self.points@;
        let mut left = filled(self.points[0], total);
        let mut right = filled(self.points[0], total);

        let mut j: usize = 0;
        while j < h
            invariant
                j <= h,
                w == N + 1,
                h == M + 1,
                total == w * h,
                parent == self.points@,
                parent.len() == total,
                left@.len() == total,
                right@.len() == total,
                can_blend::<S, T>(),
                shares_seam(left@, right@, w as nat, j as nat, Axis2D::U),
                keeps_outer_boundary(parent, left@, right@, w as nat, j as nat, Axis2D::U),
                blends_exactly::<S, T>() ==> forall|ii: int, jj: int|
                    0 <= jj < j && 0 <= ii < w ==> {
                        &&& left@[#[trigger] slot(w as nat, ii, jj)] == left_edge(
                            row(parent, w as nat, jj),
                            t,
                        )[ii]
                        &&& right@[slot(w as nat, ii, jj)] == right_edge(
                            row(parent, w as nat, jj),
                            t,
                        )[ii]
                    },
            decreases h - j,
        {
            proof {
                lemma_slot_in_grid(w as nat, h as nat, w - 1, j as int);
                lemma_slot(w as nat, w - 1, j as int);
            }
            let ghost left_before = left@;
            let ghost right_before = right@;
            split_line(&self.points, j * w, 1, w, t, &mut left, &mut right);
            proof {
                let base = (j * w) as int;
                assert(step(base, 1, 0) == slot(w as nat, 0, j as int));
                assert(step(base, 1, w - 1) == slot(w as nat, w - 1, j as int));
                assert forall|jj: int| 0 <= jj < j + 1 implies left@[#[trigger] slot(
                    w as nat,
                    w - 1,
                    jj,
                )] == right@[slot(w as nat, 0, jj)] by {
                    if jj < j {
                        lemma_off_row(w as nat, 0, j as int, jj);
                        lemma_off_row(w as nat, w - 1, j as int, jj);
                        lemma_slot_in_grid(w as nat, h as nat, 0, jj);
                        lemma_slot_in_grid(w as nat, h as nat, w - 1, jj);
                        assert(left_before[slot(w as nat, w - 1, jj)] == right_before[slot(
                            w as nat,
                            0,
                            jj,
                        )]);
                    }
                }
                assert forall|jj: int| 0 <= jj < j + 1 implies left@[#[trigger] slot(
                    w as nat,
                    0,
                    jj,
                )] == parent[slot(w as nat, 0, jj)] && right@[slot(w as nat, w - 1, jj)]
                    == parent[slot(w as nat, w - 1, jj)] by {
                    if jj < j {
                        lemma_off_row(w as nat, 0, j as int, jj);
                        lemma_off_row(w as nat, w - 1, j as int, jj);
                        lemma_slot_in_grid(w as nat, h as nat, 0, jj);
                        lemma_slot_in_grid(w as nat, h as nat, w - 1, jj);
                        assert(left_before[slot(w as nat, 0, jj)] == parent[slot(w as nat, 0, jj)]);
                    }
                }
                if blends_exactly::<S, T>() {
                    assert forall|ii: int, jj: int| 0 <= jj < j + 1 && 0 <= ii < w implies {
                        &&& left@[#[trigger] slot(w as nat, ii, jj)] == left_edge(
                            row(parent, w as nat, jj),
                            t,
                        )[ii]
                        &&& right@[slot(w as nat, ii, jj)] == right_edge(
                            row(parent, w as nat, jj),
                            t,
                        )[ii]
                    } by {
                        if jj < j {
                            lemma_off_row(w as nat, ii, j as int, jj);
                            lemma_slot_in_grid(w as nat, h as nat, ii, jj);
                        } else {
                            assert(step(base, 1, ii) == slot(w as nat, ii, jj));
                        }
                    }
                }
            }
            j += 1;
        }

        let top = lerp(self.colors[0], self.colors[1], t);
        let bottom = lerp(self.colors[2], self.colors[3], t);
        let colors_left = [self.colors[0], top, self.colors[2], bottom];
        let colors_right = [top, self.colors[1], bottom, self.colors[3]];
        proof {
            if blends_exactly::<S, T>() {
                assert forall|x: int| 0 <= x < total implies left@[x] == first_half_points(
                    parent,
                    w as nat,
                    h as nat,
                    Axis2D::U,
                    t,
                )[x] && right@[x] == second_half_points(parent, w as nat, h as nat, Axis2D::U, t)[x] by {
                    lemma_slot_of(w as nat, h as nat, x);
                }
                assert(left@ =~= first_half_points(parent, w as nat, h as nat, Axis2D::U, t));
                assert(right@ =~= second_half_points(parent, w as nat, h as nat, Axis2D::U, t));
            }
            if blends_exactly::<S, C>() {
                assert(colors_left@ =~= first_half_colors(self.colors@, Axis2D::U, t));
                assert(colors_right@ =~= second_half_colors(self.colors@, Axis2D::U, t));
            }
        }
        (
            BezierRectangle { points: left, colors: colors_left },
            BezierRectangle { points: right, colors: colors_right },
        )
    }

    /// Splits the patch along v: every column is split by the scheme.
    fn subdivide_v<S>(&self, t: S) -> (r: (Self, Self)) where
        S: Copy + From<u8> + Sub<Output = S>,
        T: Add<Output = T> + Mul<S, Output = T>,
        C: Add<Output = C> + Mul<S, Output = C>,

        requires
            can_blend::<S, T>(),
            can_blend::<S, C>(),
        ensures
            is_split(self@, r.0@, r.1@, (N + 1) as nat, (M + 1) as nat, Axis2D::V, t),
    {
        proof {
            use_type_invariant(self);
        }
        let total = self.points.len();
        assert(N + 1 <= total && M + 1 <= total && total >= 1) by (nonlinear_arith)
            requires
                total == (N + 1) * (M + 1),
        ;
        let w = N + 1;
        let h = M + 1;
        let ghost parent = self.points@;
        let mut top = filled(self.points[0], total);
        let mut bottom = filled(self.points[0], total);

        let mut i: usize = 0;
        while i < w
            invariant
                i <= w,
                w == N + 1,
                h == M + 1,
                total == w * h,
                parent == self.points@,
                parent.len() == total,
                top@.len() == total,
                bottom@.len() == total,
                can_blend::<S, T>(),
                forall|ii: int|
                    0 <= ii < i ==> top@[#[trigger] slot(w as nat, ii, h - 1)] == bottom@[slot(
                        w as nat,
                        ii,
                        0,
                    )],
                forall|ii: int|
                    0 <= ii < i ==> top@[#[trigger] slot(w as nat, ii, 0)] == parent[slot(
                        w as nat,
                        ii,
                        0,
                    )] && bottom@[slot(w as nat, ii, h - 1)] == parent[slot(w as nat, ii, h - 1)],
                blends_exactly::<S, T>() ==> forall|ii: int, jj: int|
                    0 <= jj < h && 0 <= ii < i ==> {
                        &&& top@[#[trigger] slot(w as nat, ii, jj)] == left_edge(
                            column(parent, w as nat, h as nat, ii),
                            t,
                        )[jj]
                        &&& bottom@[slot(w as nat, ii, jj)] == right_edge(
                            column(parent, w as nat, h as nat, ii),
                            t,
                        )[jj]
                    },
            decreases w - i,
        {
            proof {
                lemma_slot_in_grid(w as nat, h as nat, i as int, h - 1);
            }
            let ghost top_before = top@;
            let ghost bottom_before = bottom@;
            split_line(&self.points, i, w, h, t, &mut top, &mut bottom);
            proof {
                let d = w as int;
                assert(step(i as int, d, 0) == slot(w as nat, i as int, 0));
                assert(step(i as int, d, h - 1) == slot(w as nat, i as int, h - 1));
                assert forall|ii: int| 0 <= ii < i + 1 implies top@[#[trigger] slot(
                    w as nat,
                    ii,
                    h - 1,
                )] == bottom@[slot(w as nat, ii, 0)] by {
                    if ii < i {
                        lemma_off_column(w as nat, h as nat, i as int, 0, ii);
                        lemma_off_column(w as nat, h as nat, i as int, h - 1, ii);
                        lemma_slot_in_grid(w as nat, h as nat, ii, 0);
                        lemma_slot_in_grid(w as nat, h as nat, ii, h - 1);
                        assert(top_before[slot(w as nat, ii, h - 1)] == bottom_before[slot(
                            w as nat,
                            ii,
                            0,
                        )]);
                    }
                }
                assert forall|ii: int| 0 <= ii < i + 1 implies top@[#[trigger] slot(
                    w as nat,
                    ii,
                    0,
                )] == parent[slot(w as nat, ii, 0)] && bottom@[slot(w as nat, ii, h - 1)]
                    == parent[slot(w as nat, ii, h - 1)] by {
                    if ii < i {
                        lemma_off_column(w as nat, h as nat, i as int, 0, ii);
                        lemma_off_column(w as nat, h as nat, i as int, h - 1, ii);
                        lemma_slot_in_grid(w as nat, h as nat, ii, 0);
                        lemma_slot_in_grid(w as nat, h as nat, ii, h - 1);
                        assert(top_before[slot(w as nat, ii, 0)] == parent[slot(w as nat, ii, 0)]);
                    }
                }
                if blends_exactly::<S, T>() {
                    assert forall|ii: int, jj: int| 0 <= jj < h && 0 <= ii < i + 1 implies {
                        &&& top@[#[trigger] slot(w as nat, ii, jj)] == left_edge(
                            column(parent, w as nat, h as nat, ii),
                            t,
                        )[jj]
                        &&& bottom@[slot(w as nat, ii, jj)] == right_edge(
                            column(parent, w as nat, h as nat, ii),
                            t,
                        )[jj]
                    } by {
                        if ii < i {
                            lemma_off_column(w as nat, h as nat, i as int, jj, ii);
                            lemma_slot_in_grid(w as nat, h as nat, ii, jj);
                        } else {
                            assert(step(i as int, d, jj) == slot(w as nat, ii, jj));
                        }
                    }
                }
            }
            i += 1;
        }

        let left = lerp(self.colors[0], self.colors[2], t);
        let right = lerp(self.colors[1], self.colors[3], t);
        let colors_top = [self.colors[0], self.colors[1], left, right];
        let colors_bottom = [left, right, self.colors[2], self.colors[3]];
        proof {
            if blends_exactly::<S, T>() {
                assert forall|x: int| 0 <= x < total implies top@[x] == first_half_points(
                    parent,
                    w as nat,
                    h as nat,
                    Axis2D::V,
                    t,
                )[x] && bottom@[x] == second_half_points(parent, w as nat, h as nat, Axis2D::V, t)[x] by {
                    lemma_slot_of(w as nat, h as nat, x);
                }
                assert(top@ =~= first_half_points(parent, w as nat, h as nat, Axis2D::V, t));
                assert(bottom@ =~= second_half_points(parent, w as nat, h as nat, Axis2D::V, t));
            }
            if blends_exactly::<S, C>() {
                assert(colors_top@ =~= first_half_colors(self.colors@, Axis2D::V, t));
                assert(colors_bottom@ =~= second_half_colors(self.colors@, Axis2D::V, t));
            }
        }
        (
            BezierRectangle { points: top, colors: colors_top },
            BezierRectangle { points: bottom, colors: colors_bottom },
        )
    }

    /// Splits the patch in two along `axis` at parameter `t`: left and right
    /// for u, top and bottom for v.  The parameter may lie outside the unit
    /// interval.
    pub fn subdivide<S>(&self, axis: Axis2D, t: S) -> (r: (Self, Self)) where
        S: Copy + From<u8> + Sub<Output = S>,
        T: Add<Output = T> + Mul<S, Output = T>,
        C: Add<Output = C> + Mul<S, Output = C>,

        requires
            can_blend::<S, T>(),
            can_blend::<S, C>(),
        ensures
            is_split(self@, r.0@, r.1@, (N + 1) as nat, (M + 1) as nat, axis, t),
    {
        match axis {
            Axis2D::U => self.subdivide_u(t),
            Axis2D::V => self.subdivide_v(t),
        }
    }
}

/// The scalar type supports interpolation of points and of colors, and
/// division.
pub open spec fn can_quarter<S, T, C>() -> bool where
    S: Copy + From<u8> + Sub<Output = S> + Div<Output = S>,
    T: Copy + Add<Output = T> + Mul<S, Output = T>,
    C: Copy + Add<Output = C> + Mul<S, Output = C>,
 {
    &&& can_blend::<S, T>()
    &&& can_blend::<S, C>()
    &&& can_halve::<S>()
}

/// All arithmetic that quartering uses is exact.
pub open spec fn quarters_exactly<S, T, C>() -> bool where
    S: Copy + From<u8> + Sub<Output = S> + Div<Output = S>,
    T: Copy + Add<Output = T> + Mul<S, Output = T>,
    C: Copy + Add<Output = C> + Mul<S, Output = C>,
 {
    &&& blends_exactly::<S, T>()
    &&& blends_exactly::<S, C>()
    &&& halves_exactly::<S>()
}

/// What holds of a patch and its four quadrants, in the order top left,
/// bottom left, top right, bottom right.  Whatever the arithmetic does, each
/// top quadrant meets the one below it, and each quadrant keeps the parent's
/// corner point and corner color on its outer corner.  Where the arithmetic
/// is exact, the quadrants are those of `Patch::quarter` at one half.
pub open spec fn is_quartered<S, T, C>(
    parent: Patch<T, C>,
    quadrants: Seq<Patch<T, C>>,
    w: nat,
    h: nat,
) -> bool where
    S: Copy + From<u8> + Sub<Output = S> + Div<Output = S>,
    T: Copy + Add<Output = T> + Mul<S, Output = T>,
    C: Copy + Add<Output = C> + Mul<S, Output = C>,
 {
    &&& quadrants.len() == 4
    &&& forall|q: int| 0 <= q < 4 ==> (#[trigger] quadrants[q]).fits(w, h)
    &&& shares_seam(quadrants[0].points, quadrants[1].points, w, h, Axis2D::V)
    &&& shares_seam(quadrants[2].points, quadrants[3].points, w, h, Axis2D::V)
    &&& quadrants[0].at(w, 0, 0) == parent.at(w, 0, 0)
    &&& quadrants[1].at(w, 0, h - 1) == parent.at(w, 0, h - 1)
    &&& quadrants[2].at(w, w - 1, 0) == parent.at(w, w - 1, 0)
    &&& quadrants[3].at(w, w - 1, h - 1) == parent.at(w, w - 1, h - 1)
    &&& quadrants[0].colors[0] == parent.colors[0]
    &&& quadrants[1].colors[2] == parent.colors[2]
    &&& quadrants[2].colors[1] == parent.colors[1]
    &&& quadrants[3].colors[3] == parent.colors[3]
    &&& quarters_exactly::<S, T, C>() ==> quadrants == parent.quarter(w, h, half::<S>())
}

impl<T: Copy, C: Copy, const N: usize, const M: usize> BezierRectangle<T, C, N, M> {
    /// Cuts the patch into its four quadrants: a split along u at one half,
    /// then a split of each half along v at one half.  The quadrants come
    /// in the order top left, bottom left, top right, bottom right.
    pub fn subdivide_cross<S>(&self) -> (r: Vec<Self>) where
        S: Copy + From<u8> + Sub<Output = S> + Div<Output = S>,
        T: Add<Output = T> + Mul<S, Output = T>,
        C: Add<Output = C> + Mul<S, Output = C>,

        requires
            can_quarter::<S, T, C>(),
        ensures
            is_quartered::<S, T, C>(self@, views(r@), (N + 1) as nat, (M + 1) as nat),
    {
        let middle = S::from(1u8) / S::from(2u8);
        let (l, r) = self.subdivide(Axis2D::U, middle);
        let (tl, bl) = l.subdivide(Axis2D::V, middle);
        let (tr, br) = r.subdivide(Axis2D::V, middle);
        let quadrants = vec![tl, bl, tr, br];
        proof {
            let w = (N + 1) as nat;
            let h = (M + 1) as nat;
            let seen = views(quadrants@);
            assert(seen[0] == tl@ && seen[1] == bl@ && seen[2] == tr@ && seen[3] == br@);
            assert(slot(w, 0, 0) == 0);
            // the outer corners are handed down through both splits
            assert(l@.points[slot(w, 0, 0)] == self@.points[slot(w, 0, 0)]);
            assert(tl@.points[slot(w, 0, 0)] == l@.points[slot(w, 0, 0)]);
            assert(l@.points[slot(w, 0, h - 1)] == self@.points[slot(w, 0, h - 1)]);
            assert(bl@.points[slot(w, 0, h - 1)] == l@.points[slot(w, 0, h - 1)]);
            assert(r@.points[slot(w, w - 1, 0)] == self@.points[slot(w, w - 1, 0)]);
            assert(tr@.points[slot(w, w - 1, 0)] == r@.points[slot(w, w - 1, 0)]);
            assert(r@.points[slot(w, w - 1, h - 1)] == self@.points[slot(w, w - 1, h - 1)]);
            assert(br@.points[slot(w, w - 1, h - 1)] == r@.points[slot(w, w - 1, h - 1)]);
            if quarters_exactly::<S, T, C>() {
                assert(middle == half::<S>());
                assert(seen =~= self@.quarter(w, h, half::<S>()));
            }
        }
        quadrants
    }
}

impl<S, T, C, const N: usize, const M: usize> Subdivide<S> for BezierRectangle<T, C, N, M> where
    S: Copy + From<u8> + Sub<Output = S> + Div<Output = S>,
    T: Copy + Add<Output = T> + Mul<S, Output = T>,
    C: Copy + Add<Output = C> + Mul<S, Output = C>,
 {
    open spec fn subdivide_req(&self) -> bool {
        can_quarter::<S, T, C>()
    }

    open spec fn subdivides_to(&self, children: Seq<Self>) -> bool {
        is_quartered::<S, T, C>(self@, views(children), (N + 1) as nat, (M + 1) as nat)
    }

    open spec fn obeys_subdivide_spec() -> bool {
        quarters_exactly::<S, T, C>()
    }

    open spec fn subdivide_spec(v: Patch<T, C>) -> Seq<Patch<T, C>> {
        v.quarter((N + 1) as nat, (M + 1) as nat, half::<S>())
    }

    open spec fn fanout() -> nat {
        4
    }

    proof fn lemma_fanout() {
    }

    /// The children of a patch are its four quadrants.
    fn subdivide(&self) -> (r: Vec<Self>) {
        self.subdivide_cross::<S>()
    }
}

/// The normal at a corner of a patch: the normalized cross product of the
/// tangent along u and the tangent along v.  Each tangent is the step from
/// the corner to its neighbour on the boundary, turned round where the
/// neighbour lies before the corner, so that the normals of all four
/// corners point to the same side.
pub open spec fn corner_normal<T: Spatial>(
    corner: T,
    along_u: T,
    along_v: T,
    turn_u: bool,
    turn_v: bool,
) -> T {
    let du = if turn_u {
        along_u.minus_spec(corner).negated_spec()
    } else {
        along_u.minus_spec(corner)
    };
    let dv = if turn_v {
        along_v.minus_spec(corner).negated_spec()
    } else {
        along_v.minus_spec(corner)
    };
    du.cross_spec(dv).normalize_or_zero_spec()
}

/// The normals at the four corners of a grid `w` wide and `h` high, in the
/// order of the corner colors.
pub open spec fn corner_normals_of<T: Spatial>(points: Seq<T>, w: nat, h: nat) -> Seq<T> {
    let n = w - 1;
    let m = h - 1;
    seq![
        corner_normal(
            points[slot(w, 0, 0)],
            points[slot(w, 1, 0)],
            points[slot(w, 0, 1)],
            false,
            false,
        ),
        corner_normal(
            points[slot(w, n, 0)],
            points[slot(w, n - 1, 0)],
            points[slot(w, n, 1)],
            true,
            false,
        ),
        corner_normal(
            points[slot(w, 0, m)],
            points[slot(w, 1, m)],
            points[slot(w, 0, m - 1)],
            false,
            true,
        ),
        corner_normal(
            points[slot(w, n, m)],
            points[slot(w, n - 1, m)],
            points[slot(w, n, m - 1)],
            true,
            true,
        ),
    ]
}

/// What holds of a patch and the two triangles that cover its corners.
/// With the corners numbered as the colors are, the first triangle has the
/// corners 0, 1, 2 with their colors and the normals of the corners 0, 2, 1;
/// the second has the corners 1, 3, 2 with their colors and the normals of
/// the corners 2, 3, 1.  The normals are pinned down where the vector
/// arithmetic is exact.
pub open spec fn is_flattened<T: Spatial, C>(
    patch: Patch<T, C>,
    w: nat,
    h: nat,
    triangles: Seq<Triangle<T, C>>,
) -> bool {
    let n = w - 1;
    let m = h - 1;
    let near = patch.points[slot(w, 0, 0)];
    let right = patch.points[slot(w, n, 0)];
    let below = patch.points[slot(w, 0, m)];
    let far = patch.points[slot(w, n, m)];
    let c = patch.colors;
    let normals = corner_normals_of(patch.points, w, h);
    &&& triangles.len() == 2
    &&& triangles[0].points@ == seq![near, right, below]
    &&& triangles[0].colors@ == seq![c[0], c[1], c[2]]
    &&& triangles[1].points@ == seq![right, far, below]
    &&& triangles[1].colors@ == seq![c[1], c[3], c[2]]
    &&& triangles[0].normals[1] == triangles[1].normals[0]
    &&& triangles[0].normals[2] == triangles[1].normals[2]
    &&& measures_exactly::<T>() ==> {
        &&& triangles[0].normals@ == seq![normals[0], normals[2], normals[1]]
        &&& triangles[1].normals@ == seq![normals[2], normals[3], normals[1]]
    }
}

impl<T: Spatial, C: Copy, const N: usize, const M: usize> BezierRectangle<T, C, N, M> {
    /// The normals at the four corners, in the order of the corner colors.
    fn corner_normals(&self) -> (r: (T, T, T, T))
        requires
            N >= 1,
            M >= 1,
        ensures
            measures_exactly::<T>() ==> seq![r.0, r.1, r.2, r.3] == corner_normals_of(
                self@.points,
                (N + 1) as nat,
                (M + 1) as nat,
            ),
    {
        proof {
            use_type_invariant(self);
        }
        let total = self.points.len();
        assert(N + 1 <= total && M + 1 <= total) by (nonlinear_arith)
            requires
                total == (N + 1) * (M + 1),
        ;
        let w = N + 1;
        proof {
            lemma_slot_in_grid(w as nat, (M + 1) as nat, 0, 1);
            lemma_slot_in_grid(w as nat, (M + 1) as nat, N as int, 1);
            lemma_slot_in_grid(w as nat, (M + 1) as nat, 0, M as int);
            lemma_slot_in_grid(w as nat, (M + 1) as nat, 0, M - 1);
            lemma_slot_in_grid(w as nat, (M + 1) as nat, N as int, M as int);
            lemma_slot_in_grid(w as nat, (M + 1) as nat, N as int, M - 1);
            lemma_slot(w as nat, 0, M as int);
            lemma_slot(w as nat, 0, M - 1);
        }
        let p = &self.points;
        let b00u = p[0 * w + 1].minus(p[0 * w + 0]);
        let b00v = p[1 * w + 0].minus(p[0 * w + 0]);
        let b10u = p[0 * w + N - 1].minus(p[0 * w + N]).negated();
        let b10v = p[1 * w + N].minus(p[0 * w + N]);
        let b01u = p[M * w + 1].minus(p[M * w + 0]);
        let b01v = p[(M - 1) * w + 0].minus(p[M * w + 0]).negated();
        let b11u = p[M * w + N - 1].minus(p[M * w + N]).negated();
        let b11v = p[(M - 1) * w + N].minus(p[M * w + N]).negated();
        let n00 = b00u.cross(b00v).normalize_or_zero();
        let n10 = b10u.cross(b10v).normalize_or_zero();
        let n01 = b01u.cross(b01v).normalize_or_zero();
        let n11 = b11u.cross(b11v).normalize_or_zero();
        proof {
            if measures_exactly::<T>() {
                assert(seq![n00, n10, n01, n11] =~= corner_normals_of(
                    self@.points,
                    (N + 1) as nat,
                    (M + 1) as nat,
                ));
            }
        }
        (n00, n10, n01, n11)
    }
}

impl<T: Spatial, C: Copy, const N: usize, const M: usize> ToTriangle<T, C> for BezierRectangle<
    T,
    C,
    N,
    M,
> {
    open spec fn to_triangles_req(&self) -> bool {
        &&& N >= 1
        &&& M >= 1
    }

    open spec fn triangle_count(&self) -> nat {
        2
    }

    open spec fn flattens_to(&self, triangles: Seq<Triangle<T, C>>) -> bool {
        is_flattened(self@, (N + 1) as nat, (M + 1) as nat, triangles)
    }

    /// Covers the four corners of the patch with two triangles.  This is a
    /// coarse stand-in for the surface, meant for patches that have been
    /// refined before.
    fn to_triangles(&self) -> (r: Vec<Triangle<T, C>>) {
        proof {
            use_type_invariant(self);
        }
        let total = self.points.len();
        assert(N + 1 <= total && M + 1 <= total) by (nonlinear_arith)
            requires
                total == (N + 1) * (M + 1),
        ;
        proof {
            lemma_slot_in_grid((N + 1) as nat, (M + 1) as nat, N as int, M as int);
            lemma_slot_in_grid((N + 1) as nat, (M + 1) as nat, 0, M as int);
            lemma_slot((N + 1) as nat, 0, M as int);
        }
        let v00 = self.points[0];
        let v10 = self.points[N];
        let v01 = self.points[M * (N + 1)];
        let v11 = self.points[M * (N + 1) + N];
        let (n0, n1, n2, n3) = self.corner_normals();
        let t1 = Triangle::new_with_normals(
            [v00, v10, v01],
            [self.colors[0], self.colors[1], self.colors[2]],
            [n0, n2, n1],
        );
        let t2 = Triangle::new_with_normals(
            [v10, v11, v01],
            [self.colors[1], self.colors[3], self.colors[2]],
            [n2, n3, n1],
        );
        let triangles = vec![t1, t2];
        proof {
            let w = (N + 1) as nat;
            let h = (M + 1) as nat;
            assert(triangles@[0] == t1 && triangles@[1] == t2);
            assert(slot(w, 0, 0) == 0 && slot(w, N as int, 0) == N);
            assert(t1.points@ =~= seq![v00, v10, v01]);
            assert(t2.points@ =~= seq![v10, v11, v01]);
            assert(t1.colors@ =~= seq![self.colors[0], self.colors[1], self.colors[2]]);
            assert(t2.colors@ =~= seq![self.colors[1], self.colors[3], self.colors[2]]);
            if measures_exactly::<T>() {
                let normals = corner_normals_of(self@.points, w, h);
                assert(seq![n0, n1, n2, n3][0] == normals[0]);
                assert(seq![n0, n1, n2, n3][1] == normals[1]);
                assert(seq![n0, n1, n2, n3][2] == normals[2]);
                assert(seq![n0, n1, n2, n3][3] == normals[3]);
                assert(t1.normals@ =~= seq![normals[0], normals[2], normals[1]]);
                assert(t2.normals@ =~= seq![normals[2], normals[3], normals[1]]);
            }
        }
        triangles
    }
}

/// An entity that can be read from text.
pub trait FromString: Sized {
    /// What the type asks of its surroundings for `from_string` to be
    /// called.
    open spec fn from_string_req() -> bool {
        true
    }

    fn from_string(lines: &str) -> (r: Result<Self, String>)
        requires
            Self::from_string_req(),
    ;
}

/// The error for a text with the wrong number of lines: how many lines came,
/// and how many a patch takes.
pub open spec fn count_message(given: nat, expected: nat) -> Seq<char> {
    decimal(given) + " coordinates given, "@ + decimal(expected) + " expected"@
}

/// What lines of text say of a patch with `count` control points: each
/// line writes a vector, first the control points, row by row, then the four
/// corner colors.  A line that writes no vector is an error, and so is any
/// number of lines but `count + 4`; that error names the number of lines
/// that came and the `count + 4` that a patch takes.
pub open spec fn patch_lines(rows: Seq<Seq<char>>, count: nat) -> Result<
    Patch<Vec3, Vec3>,
    Seq<char>,
> {
    match line_vectors(rows) {
        None => Err("missing vector element"@),
        Some(vectors) => if vectors.len() != count + 4 {
            Err(count_message(vectors.len(), count + 4))
        } else {
            Ok(
                Patch {
                    points: vectors.subrange(0, count as int),
                    colors: vectors.subrange(count as int, count as int + 4),
                },
            )
        },
    }
}

/// What a text says of a patch with `count` control points.
pub open spec fn patch_text(text: Seq<char>, count: nat) -> Result<Patch<Vec3, Vec3>, Seq<char>> {
    patch_lines(lines(text), count)
}

/// Writes a number in decimal, by the `format` macro of std, which writes
/// an unsigned integer with the digits 0 to 9 and without leading zeros.
#[verifier::external_body]
fn write_decimal(n: usize) -> (r: String)
    ensures
        r@ == decimal(n as nat),
{
    format!("{}", n)
}

/// Writes the error for a text with the wrong number of lines.
fn write_count_message(given: usize, expected: usize) -> (r: String)
    ensures
        r@ == count_message(given as nat, expected as nat),
{
    let mut message = write_decimal(given);
    message.append(" coordinates given, ");
    message.append(write_decimal(expected).as_str());
    message.append(" expected");
    message
}

impl<const N: usize, const M: usize> BezierRectangle<Vec3, Vec3, N, M> {
    /// Reads a patch from the lines `from` up to `to`: one line for each
    /// control point, row by row, then one line for each of the four corner
    /// colors.  The first three fields of a line are the coordinates;
    /// further fields are not looked at.
    pub fn from_lines(rows: &Vec<Vec<char>>, from: usize, to: usize) -> (r: Result<Self, String>)
        requires
            from <= to <= rows@.len(),
            (N + 1) * (M + 1) + 4 <= usize::MAX,
        ensures
            match patch_lines(
                views(rows@).subrange(from as int, to as int),
                ((N + 1) * (M + 1)) as nat,
            ) {
                Ok(patch) => r is Ok && r->Ok_0@ == patch,
                Err(message) => r is Err && r->Err_0@ == message,
            },
    {
        assert(N + 1 <= usize::MAX && M + 1 <= usize::MAX) by (nonlinear_arith)
            requires
                (N + 1) * (M + 1) + 4 <= usize::MAX,
                N >= 0,
                M >= 0,
        ;
        let num_ctrl_pts: usize = (N + 1) * (M + 1);
        let vectors = match read_vectors(rows, from, to) {
            Some(vectors) => vectors,
            None => {
                return Err("missing vector element".to_owned());
            },
        };
        if vectors.len() != num_ctrl_pts + 4 {
            return Err(write_count_message(vectors.len(), num_ctrl_pts + 4));
        }
        let mut points: Vec<Vec3> = Vec::new();
        let mut index: usize = 0;
        while index < num_ctrl_pts
            invariant
                index <= num_ctrl_pts,
                vectors@.len() == num_ctrl_pts + 4,
                points@ == vectors@.subrange(0, index as int),
            decreases num_ctrl_pts - index,
        {
            points.push(vectors[index]);
            proof {
                assert(vectors@.subrange(0, index + 1) =~= vectors@.subrange(0, index as int).push(
                    vectors@[index as int],
                ));
            }
            index += 1;
        }
        let colors = [
            vectors[num_ctrl_pts],
            vectors[num_ctrl_pts + 1],
            vectors[num_ctrl_pts + 2],
            vectors[num_ctrl_pts + 3],
        ];
        proof {
            assert(colors@ =~= vectors@.subrange(num_ctrl_pts as int, num_ctrl_pts + 4));
        }
        Ok(BezierRectangle { points, colors })
    }
}

impl<const N: usize, const M: usize> FromString for BezierRectangle<Vec3, Vec3, N, M> {
    open spec fn from_string_req() -> bool {
        (N + 1) * (M + 1) + 4 <= usize::MAX
    }

    /// Reads a patch from text, line by line.
    fn from_string(lines: &str) -> (r: Result<Self, String>)
        ensures
            match patch_text(lines@, ((N + 1) * (M + 1)) as nat) {
                Ok(patch) => r is Ok && r->Ok_0@ == patch,
                Err(message) => r is Err && r->Err_0@ == message,
            },
    {
        let rows = split_lines(&chars_of(lines));
        proof {
            assert(views(rows@).subrange(0, rows@.len() as int) =~= views(rows@));
        }
        BezierRectangle::from_lines(&rows, 0, rows.len())
    }
}

} // verus!
