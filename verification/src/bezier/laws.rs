//! Laws of patch subdivision, stated over the mathematical model of a patch:
//! the two children of a split meet and keep the parent's outer sides, a
//! split across a single line copies it, and splitting along u and then v
//! gives the same four quadrants as splitting along v and then u.  Besides,
//! how many patches and triangles refinement makes of a single patch.
use vstd::prelude::*;
use vstd::arithmetic::power::pow;
use core::ops::{Add, Div, Mul, Sub};
use crate::bezier::grid::{column, lemma_slot, lemma_slot_in_grid, lemma_slot_of, row, slot};
use crate::bezier::line::step;
use crate::bezier::rectangle::{
    BezierRectangle,
    first_half_points,
    is_split,
    keeps_outer_boundary,
    keeps_outer_colors,
    Patch,
    second_half_points,
    shares_seam,
};
use crate::math::{Axis2D, blends_exactly, de_casteljau, lerp_spec};
use crate::subdivision::{
    lemma_refine_times_len,
    passes_needed,
    refine_times,
    REFINEMENT_BUDGET,
    Subdivide,
    triangles_upto,
};
use crate::triangle::Spatial;

verus! {

/// Interpolating at `t` first and at `s` second gives what interpolating at
/// `s` first and at `t` second gives, on any four values:
///
/// ```text
///   a --t-- b
///   |       |          lerp(lerp(a, b, t), lerp(c, d, t), s)
///   s       s       == lerp(lerp(a, c, s), lerp(b, d, s), t)
///   |       |
///   c --t-- d
/// ```
///
/// Exact arithmetic has this property.  Rounding arithmetic has it on some
/// values only.
pub open spec fn blends_commute<S, T>(s: S, t: S) -> bool where
    S: Copy + From<u8> + Sub<Output = S>,
    T: Copy + Add<Output = T> + Mul<S, Output = T>,
 {
    forall|a: T, b: T, c: T, d: T| #[trigger] commutes_on(a, b, c, d, s, t)
}

/// The two orders of interpolation agree on the square `a, b, c, d`.
pub open spec fn commutes_on<S, T>(a: T, b: T, c: T, d: T, s: S, t: S) -> bool where
    S: Copy + From<u8> + Sub<Output = S>,
    T: Copy + Add<Output = T> + Mul<S, Output = T>,
 {
    lerp_spec(lerp_spec(a, b, t), lerp_spec(c, d, t), s) == lerp_spec(
        lerp_spec(a, c, s),
        lerp_spec(b, d, s),
        t,
    )
}

/// The children of a split, as `Patch::split` gives them, meet along the
/// cut and keep the parent's outer sides and outer colors.
pub proof fn lemma_split_boundaries<S, T, C>(p: Patch<T, C>, w: nat, h: nat, axis: Axis2D, t: S) where
    S: Copy + From<u8> + Sub<Output = S>,
    T: Copy + Add<Output = T> + Mul<S, Output = T>,
    C: Copy + Add<Output = C> + Mul<S, Output = C>,

    requires
        p.fits(w, h),
        w >= 1,
        h >= 1,
    ensures
        p.split(w, h, axis, t).0.fits(w, h),
        p.split(w, h, axis, t).1.fits(w, h),
        shares_seam(p.split(w, h, axis, t).0.points, p.split(w, h, axis, t).1.points, w, h, axis),
        keeps_outer_boundary(
            p.points,
            p.split(w, h, axis, t).0.points,
            p.split(w, h, axis, t).1.points,
            w,
            h,
            axis,
        ),
        keeps_outer_colors(
            p.colors,
            p.split(w, h, axis, t).0.colors,
            p.split(w, h, axis, t).1.colors,
            axis,
        ),
{
    let first = p.split(w, h, axis, t).0.points;
    let second = p.split(w, h, axis, t).1.points;
    match axis {
        Axis2D::U => {
            assert forall|j: int| 0 <= j < h implies first[#[trigger] slot(w, w - 1, j)]
                == second[slot(w, 0, j)] by {
                lemma_slot(w, w - 1, j);
                lemma_slot(w, 0, j);
                lemma_slot_in_grid(w, h, w - 1, j);
                lemma_slot_in_grid(w, h, 0, j);
            }
            assert forall|j: int| 0 <= j < h implies first[#[trigger] slot(w, 0, j)]
                == p.points[slot(w, 0, j)] && second[slot(w, w - 1, j)] == p.points[slot(
                w,
                w - 1,
                j,
            )] by {
                lemma_slot(w, w - 1, j);
                lemma_slot(w, 0, j);
                lemma_slot_in_grid(w, h, w - 1, j);
                lemma_slot_in_grid(w, h, 0, j);
                assert(step(j * w, 1, 0) == slot(w, 0, j));
                assert(step(j * w, 1, w - 1) == slot(w, w - 1, j));
            }
        },
        Axis2D::V => {
            assert forall|i: int| 0 <= i < w implies first[#[trigger] slot(w, i, h - 1)]
                == second[slot(w, i, 0)] by {
                lemma_slot(w, i, h - 1);
                lemma_slot(w, i, 0);
                lemma_slot_in_grid(w, h, i, h - 1);
                lemma_slot_in_grid(w, h, i, 0);
            }
            assert forall|i: int| 0 <= i < w implies first[#[trigger] slot(w, i, 0)]
                == p.points[slot(w, i, 0)] && second[slot(w, i, h - 1)] == p.points[slot(
                w,
                i,
                h - 1,
            )] by {
                lemma_slot(w, i, h - 1);
                lemma_slot(w, i, 0);
                lemma_slot_in_grid(w, h, i, h - 1);
                lemma_slot_in_grid(w, h, i, 0);
                assert(step(i, w as int, 0) == slot(w, i, 0));
                assert(step(i, w as int, h - 1) == slot(w, i, h - 1));
            }
        },
    }
}

/// Splitting across a single line copies it: where a patch has one row
/// only, both children of a split along v have the parent's points, and
/// where it has one column only, so have both children of a split along u.
/// This holds whatever the arithmetic does.
pub proof fn lemma_split_of_single_line<S, T, C>(
    parent: Patch<T, C>,
    first: Patch<T, C>,
    second: Patch<T, C>,
    w: nat,
    h: nat,
    axis: Axis2D,
    t: S,
) where
    S: Copy + From<u8> + Sub<Output = S>,
    T: Copy + Add<Output = T> + Mul<S, Output = T>,
    C: Copy + Add<Output = C> + Mul<S, Output = C>,

    requires
        parent.fits(w, h),
        is_split(parent, first, second, w, h, axis, t),
        match axis {
            Axis2D::U => w == 1,
            Axis2D::V => h == 1,
        },
    ensures
        first.points == parent.points,
        second.points == parent.points,
{
    assert forall|x: int| 0 <= x < w * h implies first.points[x] == parent.points[x]
        && second.points[x] == parent.points[x] by {
        match axis {
            Axis2D::U => {
                assert(w * h == h) by (nonlinear_arith)
                    requires
                        w == 1,
                ;
                assert(x * w == x) by (nonlinear_arith)
                    requires
                        w == 1,
                ;
                assert(slot(w, 0, x) == x);
                assert(slot(w, w - 1, x) == x);
            },
            Axis2D::V => {
                assert(w * h == w) by (nonlinear_arith)
                    requires
                        h == 1,
                ;
                assert(slot(w, x, 0) == x);
                assert(slot(w, x, h - 1) == x);
            },
        }
    }
    assert(first.points =~= parent.points);
    assert(second.points =~= parent.points);
}

/// Level `k` along u at column `i`, taken in row `j`.
pub open spec fn u_level<S, T>(points: Seq<T>, w: nat, t: S, k: nat, i: int, j: int) -> T where
    S: Copy + From<u8> + Sub<Output = S>,
    T: Copy + Add<Output = T> + Mul<S, Output = T>,
 {
    de_casteljau(row(points, w, j), t, k, i)
}

/// Level `l` along v at row `j`, taken in column `i`.
pub open spec fn v_level<S, T>(points: Seq<T>, w: nat, h: nat, s: S, l: nat, j: int, i: int) -> T where
    S: Copy + From<u8> + Sub<Output = S>,
    T: Copy + Add<Output = T> + Mul<S, Output = T>,
 {
    de_casteljau(column(points, w, h, i), s, l, j)
}

/// Level `k` along u at column `i`, in every row from the first to the last.
pub open spec fn u_levels<S, T>(points: Seq<T>, w: nat, h: nat, t: S, k: nat, i: int) -> Seq<T> where
    S: Copy + From<u8> + Sub<Output = S>,
    T: Copy + Add<Output = T> + Mul<S, Output = T>,
 {
    Seq::new(h, |jj: int| u_level(points, w, t, k, i, jj))
}

/// Level `l` along v at row `j`, in every column from the first to the last.
pub open spec fn v_levels<S, T>(points: Seq<T>, w: nat, h: nat, s: S, l: nat, j: int) -> Seq<T> where
    S: Copy + From<u8> + Sub<Output = S>,
    T: Copy + Add<Output = T> + Mul<S, Output = T>,
 {
    Seq::new(w, |ii: int| v_level(points, w, h, s, l, j, ii))
}

/// Level `k` along u at column `i` in every row, then level `l` along v at
/// row `j`.
pub open spec fn u_then_v<S, T>(
    points: Seq<T>,
    w: nat,
    h: nat,
    s: S,
    t: S,
    k: nat,
    i: int,
    l: nat,
    j: int,
) -> T where
    S: Copy + From<u8> + Sub<Output = S>,
    T: Copy + Add<Output = T> + Mul<S, Output = T>,
 {
    de_casteljau(u_levels(points, w, h, t, k, i), s, l, j)
}

/// Level `l` along v at row `j` in every column, then level `k` along u at
/// column `i`.
pub open spec fn v_then_u<S, T>(
    points: Seq<T>,
    w: nat,
    h: nat,
    s: S,
    t: S,
    k: nat,
    i: int,
    l: nat,
    j: int,
) -> T where
    S: Copy + From<u8> + Sub<Output = S>,
    T: Copy + Add<Output = T> + Mul<S, Output = T>,
 {
    de_casteljau(v_levels(points, w, h, s, l, j), t, k, i)
}

/// Levels along u and levels along v may be taken in either order.
pub proof fn lemma_levels_commute<S, T>(
    points: Seq<T>,
    w: nat,
    h: nat,
    s: S,
    t: S,
    k: nat,
    i: int,
    l: nat,
    j: int,
) where
    S: Copy + From<u8> + Sub<Output = S>,
    T: Copy + Add<Output = T> + Mul<S, Output = T>,

    requires
        points.len() == w * h,
        0 <= i,
        i + k < w,
        0 <= j,
        j + l < h,
        blends_commute::<S, T>(s, t),
    ensures
        u_then_v(points, w, h, s, t, k, i, l, j) == v_then_u(points, w, h, s, t, k, i, l, j),
    decreases k + l,
{
    if l == 0 {
        // both sides are level k along u in row j
        let across = v_levels(points, w, h, s, 0, j);
        assert(across =~= row(points, w, j)) by {
            assert forall|ii: int| 0 <= ii < w implies across[ii] == row(points, w, j)[ii] by {
                assert(step(ii, w as int, j) == step(j * w, 1, ii));
            }
        }
    } else if k == 0 {
        // both sides are level l along v in column i
        let down = u_levels(points, w, h, t, 0, i);
        assert(down =~= column(points, w, h, i)) by {
            assert forall|jj: int| 0 <= jj < h implies down[jj] == column(points, w, h, i)[jj] by {
                assert(step(i, w as int, jj) == step(jj * w, 1, i));
            }
        }
    } else {
        let kk = (k - 1) as nat;
        let ll = (l - 1) as nat;
        let a = v_then_u(points, w, h, s, t, kk, i, ll, j);
        let b = v_then_u(points, w, h, s, t, kk, i + 1, ll, j);
        let c = v_then_u(points, w, h, s, t, kk, i, ll, j + 1);
        let d = v_then_u(points, w, h, s, t, kk, i + 1, ll, j + 1);
        // one level less along v, on this side and on the next row
        lemma_levels_commute(points, w, h, s, t, k, i, ll, j);
        lemma_levels_commute(points, w, h, s, t, k, i, ll, j + 1);
        // one level less along u, on this side and on the next column
        lemma_levels_commute(points, w, h, s, t, kk, i, l, j);
        lemma_levels_commute(points, w, h, s, t, kk, i + 1, l, j);
        // one level less along both
        lemma_levels_commute(points, w, h, s, t, kk, i, ll, j);
        lemma_levels_commute(points, w, h, s, t, kk, i + 1, ll, j);
        lemma_levels_commute(points, w, h, s, t, kk, i, ll, j + 1);
        lemma_levels_commute(points, w, h, s, t, kk, i + 1, ll, j + 1);
        assert(u_then_v(points, w, h, s, t, k, i, l, j) == lerp_spec(
            u_then_v(points, w, h, s, t, k, i, ll, j),
            u_then_v(points, w, h, s, t, k, i, ll, j + 1),
            s,
        ));
        assert(v_then_u(points, w, h, s, t, k, i, ll, j) == lerp_spec(a, b, t));
        assert(v_then_u(points, w, h, s, t, k, i, ll, j + 1) == lerp_spec(c, d, t));
        assert(v_then_u(points, w, h, s, t, k, i, l, j) == lerp_spec(
            v_then_u(points, w, h, s, t, kk, i, l, j),
            v_then_u(points, w, h, s, t, kk, i + 1, l, j),
            t,
        ));
        assert(u_then_v(points, w, h, s, t, kk, i, l, j) == lerp_spec(
            u_then_v(points, w, h, s, t, kk, i, ll, j),
            u_then_v(points, w, h, s, t, kk, i, ll, j + 1),
            s,
        ));
        assert(u_then_v(points, w, h, s, t, kk, i + 1, l, j) == lerp_spec(
            u_then_v(points, w, h, s, t, kk, i + 1, ll, j),
            u_then_v(points, w, h, s, t, kk, i + 1, ll, j + 1),
            s,
        ));
        assert(v_then_u(points, w, h, s, t, kk, i, l, j) == lerp_spec(a, c, s));
        assert(v_then_u(points, w, h, s, t, kk, i + 1, l, j) == lerp_spec(b, d, s));
        assert(commutes_on(a, b, c, d, s, t));
    }
}

/// Column `i` of the left child of a split along u holds the levels
/// `i` along u at column 0; column `i` of the right child holds the levels
/// `w - 1 - i` at column `i`.
proof fn lemma_columns_of_u_split<S, T>(points: Seq<T>, w: nat, h: nat, t: S, i: int) where
    S: Copy + From<u8> + Sub<Output = S>,
    T: Copy + Add<Output = T> + Mul<S, Output = T>,

    requires
        points.len() == w * h,
        0 <= i < w,
    ensures
        column(first_half_points(points, w, h, Axis2D::U, t), w, h, i) == u_levels(
            points,
            w,
            h,
            t,
            i as nat,
            0,
        ),
        column(second_half_points(points, w, h, Axis2D::U, t), w, h, i) == u_levels(
            points,
            w,
            h,
            t,
            (w - 1 - i) as nat,
            i,
        ),
{
    let left = column(first_half_points(points, w, h, Axis2D::U, t), w, h, i);
    let right = column(second_half_points(points, w, h, Axis2D::U, t), w, h, i);
    assert forall|jj: int| 0 <= jj < h implies left[jj] == u_levels(points, w, h, t, i as nat, 0)[jj]
        && right[jj] == u_levels(points, w, h, t, (w - 1 - i) as nat, i)[jj] by {
        lemma_slot(w, i, jj);
        lemma_slot_in_grid(w, h, i, jj);
        assert(step(i, w as int, jj) == slot(w, i, jj));
    }
    assert(left =~= u_levels(points, w, h, t, i as nat, 0));
    assert(right =~= u_levels(points, w, h, t, (w - 1 - i) as nat, i));
}

/// Row `j` of the top child of a split along v holds the levels `j` along v
/// at row 0; row `j` of the bottom child holds the levels `h - 1 - j` at
/// row `j`.
proof fn lemma_rows_of_v_split<S, T>(points: Seq<T>, w: nat, h: nat, s: S, j: int) where
    S: Copy + From<u8> + Sub<Output = S>,
    T: Copy + Add<Output = T> + Mul<S, Output = T>,

    requires
        points.len() == w * h,
        0 <= j < h,
    ensures
        row(first_half_points(points, w, h, Axis2D::V, s), w, j) == v_levels(
            points,
            w,
            h,
            s,
            j as nat,
            0,
        ),
        row(second_half_points(points, w, h, Axis2D::V, s), w, j) == v_levels(
            points,
            w,
            h,
            s,
            (h - 1 - j) as nat,
            j,
        ),
{
    let top = row(first_half_points(points, w, h, Axis2D::V, s), w, j);
    let bottom = row(second_half_points(points, w, h, Axis2D::V, s), w, j);
    assert forall|ii: int| 0 <= ii < w implies top[ii] == v_levels(points, w, h, s, j as nat, 0)[ii]
        && bottom[ii] == v_levels(points, w, h, s, (h - 1 - j) as nat, j)[ii] by {
        lemma_slot(w, ii, j);
        lemma_slot_in_grid(w, h, ii, j);
        assert(step(j * w, 1, ii) == slot(w, ii, j));
    }
    assert(top =~= v_levels(points, w, h, s, j as nat, 0));
    assert(bottom =~= v_levels(points, w, h, s, (h - 1 - j) as nat, j));
}

/// Order independence: a split along u at `t` followed by a split of each
/// half along v at `s` gives the same four quadrants, points and colors, as
/// a split along v at `s` followed by a split of each half along u at `t`.
/// This holds where interpolation at `s` and at `t` commute, for the control
/// points and for the colors.
pub proof fn lemma_split_order_independent<S, T, C>(p: Patch<T, C>, w: nat, h: nat, s: S, t: S) where
    S: Copy + From<u8> + Sub<Output = S>,
    T: Copy + Add<Output = T> + Mul<S, Output = T>,
    C: Copy + Add<Output = C> + Mul<S, Output = C>,

    requires
        p.fits(w, h),
        w >= 1,
        h >= 1,
        blends_commute::<S, T>(s, t),
        blends_commute::<S, C>(s, t),
    ensures
        ({
            let (left, right) = p.split(w, h, Axis2D::U, t);
            let (top, bottom) = p.split(w, h, Axis2D::V, s);
            &&& left.split(w, h, Axis2D::V, s).0 == top.split(w, h, Axis2D::U, t).0
            &&& left.split(w, h, Axis2D::V, s).1 == bottom.split(w, h, Axis2D::U, t).0
            &&& right.split(w, h, Axis2D::V, s).0 == top.split(w, h, Axis2D::U, t).1
            &&& right.split(w, h, Axis2D::V, s).1 == bottom.split(w, h, Axis2D::U, t).1
        }),
{
    let (left, right) = p.split(w, h, Axis2D::U, t);
    let (top, bottom) = p.split(w, h, Axis2D::V, s);
    let top_left = left.split(w, h, Axis2D::V, s).0;
    let bottom_left = left.split(w, h, Axis2D::V, s).1;
    let top_right = right.split(w, h, Axis2D::V, s).0;
    let bottom_right = right.split(w, h, Axis2D::V, s).1;
    let left_top = top.split(w, h, Axis2D::U, t).0;
    let right_top = top.split(w, h, Axis2D::U, t).1;
    let left_bottom = bottom.split(w, h, Axis2D::U, t).0;
    let right_bottom = bottom.split(w, h, Axis2D::U, t).1;

    assert forall|x: int| 0 <= x < w * h implies {
        &&& top_left.points[x] == left_top.points[x]
        &&& bottom_left.points[x] == left_bottom.points[x]
        &&& top_right.points[x] == right_top.points[x]
        &&& bottom_right.points[x] == right_bottom.points[x]
    } by {
        lemma_slot_of(w, h, x);
        let i = x % (w as int);
        let j = x / (w as int);
        lemma_columns_of_u_split(p.points, w, h, t, i);
        lemma_rows_of_v_split(p.points, w, h, s, j);
        lemma_levels_commute(p.points, w, h, s, t, i as nat, 0, j as nat, 0);
        lemma_levels_commute(p.points, w, h, s, t, i as nat, 0, (h - 1 - j) as nat, j);
        lemma_levels_commute(p.points, w, h, s, t, (w - 1 - i) as nat, i, j as nat, 0);
        lemma_levels_commute(p.points, w, h, s, t, (w - 1 - i) as nat, i, (h - 1 - j) as nat, j);
    }
    assert(top_left.points =~= left_top.points);
    assert(bottom_left.points =~= left_bottom.points);
    assert(top_right.points =~= right_top.points);
    assert(bottom_right.points =~= right_bottom.points);

    let c = p.colors;
    assert(commutes_on(c[0], c[1], c[2], c[3], s, t));
    assert(top_left.colors =~= left_top.colors);
    assert(bottom_left.colors =~= left_bottom.colors);
    assert(top_right.colors =~= right_top.colors);
    assert(bottom_right.colors =~= right_bottom.colors);
}

/// Order independence of `BezierRectangle::subdivide`, in the terms of its
/// contract: let `left`, `right` be the children of a patch along u at
/// `t`, and `top_left`, `bottom_left`, `top_right`, `bottom_right` those of
/// the two along v at `s`; let `top`, `bottom` be the children of the same
/// patch along v at `s`, and `left_top`, `right_top`, `left_bottom`,
/// `right_bottom` those of the two along u at `t`.  Where the arithmetic is
/// exact and interpolation at `s` and at `t` commutes, the quadrants of
/// the one order are those of the other.
pub proof fn lemma_subdivide_order_independent<S, T, C>(
    parent: Patch<T, C>,
    w: nat,
    h: nat,
    s: S,
    t: S,
    left: Patch<T, C>,
    right: Patch<T, C>,
    top_left: Patch<T, C>,
    bottom_left: Patch<T, C>,
    top_right: Patch<T, C>,
    bottom_right: Patch<T, C>,
    top: Patch<T, C>,
    bottom: Patch<T, C>,
    left_top: Patch<T, C>,
    right_top: Patch<T, C>,
    left_bottom: Patch<T, C>,
    right_bottom: Patch<T, C>,
) where
    S: Copy + From<u8> + Sub<Output = S>,
    T: Copy + Add<Output = T> + Mul<S, Output = T>,
    C: Copy + Add<Output = C> + Mul<S, Output = C>,

    requires
        parent.fits(w, h),
        w >= 1,
        h >= 1,
        is_split(parent, left, right, w, h, Axis2D::U, t),
        is_split(left, top_left, bottom_left, w, h, Axis2D::V, s),
        is_split(right, top_right, bottom_right, w, h, Axis2D::V, s),
        is_split(parent, top, bottom, w, h, Axis2D::V, s),
        is_split(top, left_top, right_top, w, h, Axis2D::U, t),
        is_split(bottom, left_bottom, right_bottom, w, h, Axis2D::U, t),
        blends_exactly::<S, T>(),
        blends_exactly::<S, C>(),
        blends_commute::<S, T>(s, t),
        blends_commute::<S, C>(s, t),
    ensures
        top_left == left_top,
        bottom_left == left_bottom,
        top_right == right_top,
        bottom_right == right_bottom,
{
    lemma_split_order_independent(parent, w, h, s, t);
}

/// Refining a single patch `k` times gives `4^k` patches.
pub proof fn lemma_single_patch_refined<S, T, C, const N: usize, const M: usize>(
    p: Patch<T, C>,
    k: nat,
) where
    S: Copy + From<u8> + Sub<Output = S> + Div<Output = S>,
    T: Copy + Add<Output = T> + Mul<S, Output = T>,
    C: Copy + Add<Output = C> + Mul<S, Output = C>,

    ensures
        refine_times::<S, BezierRectangle<T, C, N, M>>(seq![p], k).len() == pow(4, k),
{
    lemma_refine_times_len::<S, BezierRectangle<T, C, N, M>>(seq![p], k);
    let one = seq![p].len();
    let f = <BezierRectangle<T, C, N, M> as Subdivide<S>>::fanout();
    assert(one == 1);
    assert(f == 4);
    assert(pow(f as int, k) == pow(4, k));
    assert(one * pow(4, k) == pow(4, k)) by (nonlinear_arith)
        requires
            one == 1,
    ;
}

/// Any `n` patches flatten to `2 * n` triangles.
pub proof fn lemma_patches_flatten_to_twice<T: Spatial, C: Copy, const N: usize, const M: usize>(
    elements: Seq<BezierRectangle<T, C, N, M>>,
    n: nat,
)
    ensures
        triangles_upto::<T, C, BezierRectangle<T, C, N, M>>(elements, n) == 2 * n,
    decreases n,
{
    if n > 0 {
        lemma_patches_flatten_to_twice(elements, (n - 1) as nat);
    }
}

/// With the budget of `SubdivisionSet::subdivide`, a single patch is
/// quartered five times, into 1024 patches.
pub proof fn lemma_passes_for_single_patch()
    ensures
        passes_needed(1, REFINEMENT_BUDGET as nat, 4) == 5,
        pow(4, 5) == 1024,
{
    reveal_with_fuel(passes_needed, 7);
    reveal_with_fuel(pow, 7);
}

} // verus!
