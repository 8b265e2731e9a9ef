//! The Bernstein form of a Bézier curve, over the integers: repeated
//! interpolation of a row of numbers gives the sum of the numbers weighted
//! by the Bernstein polynomials of the parameter.
use vstd::prelude::*;
use vstd::arithmetic::power::pow;

verus! {

/// The binomial coefficient `n` over `k`; zero where `k` is not between 0
/// and `n`.
pub open spec fn binomial(n: nat, k: int) -> nat
    decreases n,
{
    if k < 0 || k > n {
        0
    } else if n == 0 {
        1
    } else {
        binomial((n - 1) as nat, k - 1) + binomial((n - 1) as nat, k)
    }
}

/// The Bernstein polynomial `j` of degree `n` at `t`:
/// `binomial(n, j) * (1 - t)^(n - j) * t^j`; zero where `j` is not between 0
/// and `n`.
pub open spec fn bernstein(n: nat, j: int, t: int) -> int {
    if 0 <= j <= n {
        binomial(n, j) * pow(1 - t, (n - j) as nat) * pow(t, j as nat)
    } else {
        0
    }
}

/// The first `m` terms of the Bernstein sum of degree `n` over the numbers
/// from `row[i]` on.
pub open spec fn bernstein_sum(row: Seq<int>, t: int, n: nat, i: int, m: nat) -> int
    decreases m,
{
    if m == 0 {
        0
    } else {
        bernstein_sum(row, t, n, i, (m - 1) as nat) + bernstein(n, m - 1, t) * row[i + m - 1]
    }
}

/// The de Casteljau point of level `k` at position `i` of a row of
/// integers.
pub open spec fn blend(row: Seq<int>, t: int, k: nat, i: int) -> int
    decreases k,
{
    if k == 0 {
        row[i]
    } else {
        (1 - t) * blend(row, t, (k - 1) as nat, i) + t * blend(row, t, (k - 1) as nat, i + 1)
    }
}

/// A Bernstein polynomial is made of the two of the degree below that
/// stand next to it: `B(n, j) = (1 - t) * B(n - 1, j) + t * B(n - 1, j - 1)`.
pub proof fn lemma_bernstein_step(n: nat, j: int, t: int)
    requires
        n >= 1,
        0 <= j <= n,
    ensures
        bernstein(n, j, t) == (1 - t) * bernstein((n - 1) as nat, j, t) + t * bernstein(
            (n - 1) as nat,
            j - 1,
            t,
        ),
{
    reveal(pow);
    let q = 1 - t;
    let below = (n - 1) as nat;
    let c1 = binomial(below, j - 1) as int;
    let c2 = binomial(below, j) as int;
    assert(binomial(n, j) == c1 + c2);
    if j == 0 {
        let qm = pow(q, below);
        let e = pow(t, 0);
        assert(c1 == 0);
        assert(pow(q, n) == q * qm);
        assert((c1 + c2) * (q * qm) * e == q * (c2 * qm * e)) by (nonlinear_arith)
            requires
                c1 == 0,
        ;
    } else if j == n {
        let e = pow(q, 0);
        let tm = pow(t, below);
        assert(c2 == 0);
        assert(pow(t, n) == t * tm);
        assert((c1 + c2) * e * (t * tm) == t * (c1 * e * tm)) by (nonlinear_arith)
            requires
                c2 == 0,
        ;
    } else {
        let qm = pow(q, (below - j) as nat);
        let tm = pow(t, (j - 1) as nat);
        assert(pow(q, (n - j) as nat) == q * qm);
        assert(pow(t, j as nat) == t * tm);
        let a = q * qm;
        let b = t * tm;
        assert((c1 + c2) * a * b == c1 * a * b + c2 * a * b) by (nonlinear_arith);
        assert(q * (c2 * qm * b) == c2 * a * b) by (nonlinear_arith)
            requires
                a == q * qm,
        ;
        assert(t * (c1 * a * tm) == c1 * a * b) by (nonlinear_arith)
            requires
                b == t * tm,
        ;
    }
}

/// The first `m` terms of a Bernstein sum are made of those of the sums of
/// the degree below, over the numbers from `row[i]` and from `row[i + 1]`
/// on.
pub proof fn lemma_bernstein_sum_step(row: Seq<int>, t: int, n: nat, i: int, m: nat)
    requires
        n >= 1,
        1 <= m <= n + 1,
    ensures
        bernstein_sum(row, t, n, i, m) == (1 - t) * bernstein_sum(row, t, (n - 1) as nat, i, m)
            + t * bernstein_sum(row, t, (n - 1) as nat, i + 1, (m - 1) as nat),
    decreases m,
{
    let q = 1 - t;
    let below = (n - 1) as nat;
    let j = m - 1;
    let x = row[i + j];
    lemma_bernstein_step(n, j, t);
    let b = bernstein(n, j, t);
    let b0 = bernstein(below, j, t);
    let b1 = bernstein(below, j - 1, t);
    assert(b * x == q * (b0 * x) + t * (b1 * x)) by (nonlinear_arith)
        requires
            b == q * b0 + t * b1,
    ;
    if m == 1 {
        assert(bernstein_sum(row, t, n, i, 0) == 0);
        assert(bernstein_sum(row, t, below, i, 0) == 0);
        assert(bernstein_sum(row, t, below, i + 1, 0) == 0);
        assert(b1 == 0);
        assert(q * (0 + b0 * x) + t * 0 == q * (b0 * x) + t * (b1 * x)) by (nonlinear_arith)
            requires
                b1 == 0,
        ;
    } else {
        let before = (m - 1) as nat;
        lemma_bernstein_sum_step(row, t, n, i, before);
        let s = bernstein_sum(row, t, n, i, before);
        let s0 = bernstein_sum(row, t, below, i, before);
        let s1 = bernstein_sum(row, t, below, i + 1, (before - 1) as nat);
        assert(bernstein_sum(row, t, below, i + 1, before) == s1 + b1 * row[i + 1 + before - 1]);
        assert(row[i + 1 + before - 1] == x);
        assert(q * (s0 + b0 * x) + t * (s1 + b1 * x) == (q * s0 + t * s1) + (q * (b0 * x) + t * (b1
            * x))) by (nonlinear_arith);
    }
}

/// Repeated interpolation gives the Bernstein sum: the de Casteljau point of
/// level `k` at position `i` is the sum of `row[i]` to `row[i + k]` weighted
/// by the Bernstein polynomials of degree `k`.
pub proof fn lemma_blend_is_bernstein_sum(row: Seq<int>, t: int, k: nat, i: int)
    ensures
        blend(row, t, k, i) == bernstein_sum(row, t, k, i, k + 1),
    decreases k,
{
    reveal(pow);
    if k == 0 {
        assert(bernstein_sum(row, t, 0, i, 0) == 0);
        assert(bernstein(0, 0, t) == 1) by {
            assert(pow(1 - t, 0) == 1);
            assert(pow(t, 0) == 1);
        }
        assert(bernstein_sum(row, t, 0, i, 1) == 0 + bernstein(0, 0, t) * row[i + 1 - 1]);
    } else {
        let below = (k - 1) as nat;
        lemma_blend_is_bernstein_sum(row, t, below, i);
        lemma_blend_is_bernstein_sum(row, t, below, i + 1);
        lemma_bernstein_sum_step(row, t, k, i, k + 1);
        // the last term of the lower sum over k + 1 terms is zero
        assert(bernstein(below, k as int, t) == 0);
        assert(bernstein_sum(row, t, below, i, k + 1) == bernstein_sum(row, t, below, i, k)
            + bernstein(below, k as int, t) * row[i + (k + 1) - 1]);
        assert(bernstein(below, k as int, t) * row[i + (k + 1) - 1] == 0) by (nonlinear_arith)
            requires
                bernstein(below, k as int, t) == 0,
        ;
    }
}

} // verus!
