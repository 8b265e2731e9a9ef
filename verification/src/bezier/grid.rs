//! Grids of values stored row by row: slots, rows and columns.
use vstd::prelude::*;
use vstd::arithmetic::div_mod::{lemma_fundamental_div_mod, lemma_fundamental_div_mod_converse};
use crate::bezier::line::{line, on_line};

verus! {

/// The slot of column `i`, row `j` in a grid that is `w` wide.
pub open spec fn slot(w: nat, i: int, j: int) -> int {
    j * w + i
}

/// Row `j` of a grid that is `w` wide.
pub open spec fn row<T>(points: Seq<T>, w: nat, j: int) -> Seq<T> {
    line(points, j * w, 1, w)
}

/// Column `i` of a grid that is `w` wide and `h` high.
pub open spec fn column<T>(points: Seq<T>, w: nat, h: nat, i: int) -> Seq<T> {
    line(points, i, w as int, h)
}

/// Slot `j * w + i` with `0 <= i < w` lies in row `j` and column `i`.
pub proof fn lemma_slot(w: nat, i: int, j: int)
    requires
        0 <= i < w,
        0 <= j,
    ensures
        slot(w, i, j) / (w as int) == j,
        slot(w, i, j) % (w as int) == i,
        j * w <= slot(w, i, j) < (j + 1) * w,
        (j + 1) * w == j * w + w,
        0 <= j * w,
{
    lemma_fundamental_div_mod_converse(slot(w, i, j), w as int, j, i);
    assert((j + 1) * w == j * w + w) by (nonlinear_arith);
    assert(0 <= j * w) by (nonlinear_arith)
        requires
            0 <= j,
            0 <= w,
    ;
}

/// Every slot of a grid is the slot of its row and column.
pub proof fn lemma_slot_of(w: nat, h: nat, x: int)
    requires
        w > 0,
        0 <= x < w * h,
    ensures
        x == slot(w, x % (w as int), x / (w as int)),
        0 <= x % (w as int) < w,
        0 <= x / (w as int) < h,
{
    lemma_fundamental_div_mod(x, w as int);
    let q = x / (w as int);
    assert(w * q == q * w) by (nonlinear_arith);
    assert(0 <= q < h) by (nonlinear_arith)
        requires
            0 <= x < w * h,
            x == q * w + x % (w as int),
            0 <= x % (w as int) < w,
            w > 0,
    ;
}

/// A slot inside a grid of `w` by `h` is inside its sequence of points.
pub proof fn lemma_slot_in_grid(w: nat, h: nat, i: int, j: int)
    requires
        0 <= i < w,
        0 <= j < h,
    ensures
        0 <= slot(w, i, j) < w * h,
{
    assert(0 <= j * w + i < w * h) by (nonlinear_arith)
        requires
            0 <= i < w,
            0 <= j < h,
    ;
}

/// A slot of another row does not lie on row `j`.
pub proof fn lemma_off_row(w: nat, i: int, j: int, other: int)
    requires
        0 <= i < w,
        0 <= j,
        0 <= other,
        j != other,
    ensures
        !on_line(slot(w, i, other), j * w, 1, w),
{
    lemma_slot(w, i, other);
    if other < j {
        assert((other + 1) * w <= j * w) by (nonlinear_arith)
            requires
                other + 1 <= j,
                0 <= w,
        ;
    } else {
        assert((j + 1) * w <= other * w) by (nonlinear_arith)
            requires
                j + 1 <= other,
                0 <= w,
        ;
        assert((j + 1) * w == j * w + w) by (nonlinear_arith);
    }
}

/// A slot of another column does not lie on column `i`.
pub proof fn lemma_off_column(w: nat, h: nat, i: int, j: int, other: int)
    requires
        0 <= i < w,
        0 <= other < w,
        0 <= j,
        i != other,
    ensures
        !on_line(slot(w, other, j), i, w as int, h),
{
    let x = slot(w, other, j);
    if other > i {
        lemma_fundamental_div_mod_converse(x - i, w as int, j, other - i);
    } else {
        assert((j - 1) * w + (w + other - i) == j * w + other - i) by (nonlinear_arith);
        lemma_fundamental_div_mod_converse(x - i, w as int, j - 1, w + other - i);
    }
}

} // verus!
