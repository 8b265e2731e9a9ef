//! Lines of values in a buffer: the slots reached from a start by equal
//! steps.  A row of a grid is such a line, a column is another, and a curve
//! is one that fills its buffer.  Splitting a line by the triangular scheme
//! is what splitting a curve or a patch comes down to.
use vstd::prelude::*;
use vstd::arithmetic::div_mod::lemma_mod_multiples_basic;
use core::ops::{Add, Mul, Sub};
use crate::math::{
    blends_exactly,
    can_blend,
    compute_triangular_scheme,
    left_edge,
    lemma_level_offset_bound,
    lemma_level_offset_step,
    lemma_level_offset_total,
    lemma_scheme_index,
    level_offset,
    right_edge,
    triangular,
};

verus! {

/// The slot reached from `start` by `k` steps of `stride`.
pub open spec fn step(start: int, stride: int, k: int) -> int {
    start + k * stride
}

/// The values found at `start`, `start + stride`, ... (`count` of them).
pub open spec fn line<T>(points: Seq<T>, start: int, stride: int, count: nat) -> Seq<T> {
    Seq::new(count, |k: int| points[step(start, stride, k)])
}

/// Whether slot `x` lies on the line that starts at `start` and takes
/// `count` steps of `stride`.
pub open spec fn on_line(x: int, start: int, stride: int, count: nat) -> bool {
    &&& start <= x <= start + (count - 1) * stride
    &&& (x - start) % stride == 0
}

/// A vector of `len` copies of `value`.
pub(crate) fn filled<T: Copy>(value: T, len: usize) -> (r: Vec<T>)
    ensures
        r@.len() == len,
        forall|x: int| 0 <= x < len ==> r@[x] == value,
{
    let mut r: Vec<T> = Vec::new();
    let mut x: usize = 0;
    while x < len
        invariant
            x <= len,
            r@.len() == x,
            forall|y: int| 0 <= y < x ==> r@[y] == value,
        decreases len - x,
    {
        r.push(value);
        x += 1;
    }
    r
}

/// Splits one line of a grid: runs the scheme on the values that `points`
/// holds at `start`, `start + stride`, ..., and writes the left edge of the
/// scheme to the same slots of `first`, the right edge, bottom up, to the
/// same slots of `second`.  All other slots stay as they are.
pub(crate) fn split_line<S, T>(
    points: &Vec<T>,
    start: usize,
    stride: usize,
    count: usize,
    t: S,
    first: &mut Vec<T>,
    second: &mut Vec<T>,
) where
    S: Copy + From<u8> + Sub<Output = S>,
    T: Copy + Add<Output = T> + Mul<S, Output = T>,

    requires
        count >= 1,
        stride >= 1,
        start + (count - 1) * stride < points@.len(),
        old(first)@.len() == points@.len(),
        old(second)@.len() == points@.len(),
        can_blend::<S, T>(),
    ensures
        final(first)@.len() == points@.len(),
        final(second)@.len() == points@.len(),
        forall|x: int|
            0 <= x < points@.len() && !on_line(x, start as int, stride as int, count as nat)
                ==> final(first)@[x] == old(first)@[x] && final(second)@[x] == old(second)@[x],
        final(first)@[start as int] == points@[start as int],
        final(second)@[start + (count - 1) * stride] == points@[start + (count - 1) * stride],
        final(first)@[start + (count - 1) * stride] == final(second)@[start as int],
        blends_exactly::<S, T>() ==> forall|k: int|
            0 <= k < count ==> {
                &&& final(first)@[#[trigger] step(start as int, stride as int, k)] == left_edge(
                    line(points@, start as int, stride as int, count as nat),
                    t,
                )[k]
                &&& final(second)@[step(start as int, stride as int, k)] == right_edge(
                    line(points@, start as int, stride as int, count as nat),
                    t,
                )[k]
            },
{
    let ghost values = line(points@, start as int, stride as int, count as nat);
    let ghost first_before = first@;
    let ghost second_before = second@;
    let total = points.len();

    // gather the line
    let mut gathered: Vec<T> = Vec::new();
    let mut k: usize = 0;
    while k < count
        invariant
            k <= count,
            count >= 1,
            stride >= 1,
            start + (count - 1) * stride < points@.len(),
            points@.len() == total,
            gathered@.len() == k,
            forall|m: int|
                0 <= m < k ==> gathered@[m] == points@[#[trigger] step(
                    start as int,
                    stride as int,
                    m,
                )],
        decreases count - k,
    {
        proof {
            lemma_step_in_line(start as int, stride as int, count as nat, k as int);
        }
        gathered.push(points[start + k * stride]);
        k += 1;
    }
    assert(gathered@ =~= values);

    let scheme = compute_triangular_scheme(gathered.as_slice(), t);
    proof {
        lemma_level_offset_total(count as nat);
        lemma_level_offset_bound(count as nat, 0);
        assert(scheme@.len() == scheme.len());
    }

    // hand out the two edges
    let mut row_offset: usize = 0;
    let mut row_len: usize = count;
    let mut k: usize = 0;
    while k < count
        invariant
            k <= count,
            count >= 1,
            stride >= 1,
            start + (count - 1) * stride < points@.len(),
            points@.len() == total,
            first@.len() == points@.len(),
            second@.len() == points@.len(),
            first_before.len() == points@.len(),
            second_before.len() == points@.len(),
            scheme@.len() == triangular(count as nat),
            scheme@.len() <= usize::MAX,
            level_offset(count as nat, count as nat) == triangular(count as nat),
            row_len == count - k,
            row_offset == level_offset(count as nat, k as nat),
            forall|x: int|
                0 <= x < points@.len() && !on_line(x, start as int, stride as int, count as nat)
                    ==> first@[x] == first_before[x] && second@[x] == second_before[x],
            forall|m: int|
                0 <= m < k ==> first@[#[trigger] step(start as int, stride as int, m)]
                    == scheme@[level_offset(count as nat, m as nat) as int],
            forall|m: int|
                count - k <= m < count ==> second@[#[trigger] step(start as int, stride as int, m)]
                    == scheme@[level_offset(count as nat, (count - 1 - m) as nat) + m],
        decreases count - k,
    {
        proof {
            lemma_step_in_line(start as int, stride as int, count as nat, k as int);
            lemma_step_in_line(start as int, stride as int, count as nat, count - 1 - k);
            lemma_level_offset_step(count as nat, k as nat);
            lemma_level_offset_bound(count as nat, k as nat);
        }
        let ghost first_mid = first@;
        let ghost second_mid = second@;
        let forward = start + k * stride;
        let backward = start + (count - 1 - k) * stride;
        first[forward] = scheme[row_offset];
        second[backward] = scheme[row_offset + row_len - 1];
        proof {
            assert forall|m: int| 0 <= m < k + 1 implies first@[#[trigger] step(
                start as int,
                stride as int,
                m,
            )] == scheme@[level_offset(count as nat, m as nat) as int] by {
                lemma_step_in_line(start as int, stride as int, count as nat, m);
                if m < k {
                    lemma_steps_differ(stride as int, m, k as int);
                    assert(first_mid[step(start as int, stride as int, m)] == scheme@[level_offset(
                        count as nat,
                        m as nat,
                    ) as int]);
                }
            }
            assert forall|m: int| count - (k + 1) <= m < count implies second@[#[trigger] step(
                start as int,
                stride as int,
                m,
            )] == scheme@[level_offset(count as nat, (count - 1 - m) as nat) + m] by {
                lemma_step_in_line(start as int, stride as int, count as nat, m);
                if m > count - 1 - k {
                    lemma_steps_differ(stride as int, count - 1 - k, m);
                    assert(second_mid[step(start as int, stride as int, m)] == scheme@[level_offset(
                        count as nat,
                        (count - 1 - m) as nat,
                    ) + m]);
                } else {
                    assert(m == count - 1 - k);
                    assert(step(start as int, stride as int, m) == backward);
                    assert((count - 1 - m) as nat == k as nat);
                    assert(row_offset + row_len - 1 == level_offset(count as nat, k as nat) + m);
                }
            }
        }
        row_offset += row_len;
        row_len -= 1;
        k += 1;
    }
    proof {
        let a = start as int;
        let d = stride as int;
        let last = count - 1;
        assert(step(a, d, 0) == start);
        assert(step(a, d, last) == start + (count - 1) * stride);
        assert(scheme@[0] == values[0]) by {
            assert(scheme@.subrange(0, count as int)[0] == gathered@[0]);
        }
        assert(scheme@[last] == values[last]) by {
            assert(scheme@.subrange(0, count as int)[last] == gathered@[last]);
        }
        assert(first@[step(a, d, 0)] == scheme@[level_offset(count as nat, 0) as int]);
        assert(second@[step(a, d, last)] == scheme@[level_offset(
            count as nat,
            (count - 1 - last) as nat,
        ) + last]);
        assert(first@[step(a, d, last)] == scheme@[level_offset(count as nat, last as nat) as int]);
        assert(second@[step(a, d, 0)] == scheme@[level_offset(count as nat, (count - 1 - 0) as nat)
            + 0int]);
        if blends_exactly::<S, T>() {
            assert forall|k: int| 0 <= k < count implies {
                &&& first@[#[trigger] step(a, d, k)] == left_edge(values, t)[k]
                &&& second@[step(a, d, k)] == right_edge(values, t)[k]
            } by {
                lemma_scheme_index(values, t, k as nat, 0);
                lemma_scheme_index(values, t, (count - 1 - k) as nat, k);
            }
        }
    }
}

/// Step `k` of a line stays inside the line, and on it.
pub proof fn lemma_step_in_line(start: int, stride: int, count: nat, k: int)
    requires
        0 <= k < count,
        stride >= 1,
        start >= 0,
    ensures
        0 <= k * stride <= (count - 1) * stride,
        start <= step(start, stride, k) <= start + (count - 1) * stride,
        on_line(step(start, stride, k), start, stride, count),
{
    assert(0 <= k * stride <= (count - 1) * stride) by (nonlinear_arith)
        requires
            0 <= k <= count - 1,
            stride >= 1,
    ;
    lemma_mod_multiples_basic(k, stride);
}

/// Different steps of a line reach different slots.
pub proof fn lemma_steps_differ(stride: int, a: int, b: int)
    requires
        stride >= 1,
        a < b,
    ensures
        a * stride < b * stride,
        forall|start: int| step(start, stride, a) < step(start, stride, b),
{
    assert(a * stride < b * stride) by (nonlinear_arith)
        requires
            stride >= 1,
            a < b,
    ;
}

} // verus!
