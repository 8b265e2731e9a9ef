//! Exact arithmetic for the interpolation kernel: the integers modulo the
//! prime 2^31 - 1.  They form a field, so that one half exists, and their
//! arithmetic is exact, so that everything that the kernel promises of exact
//! arithmetic holds of them; among it, that splits along the two axes may
//! be made in either order, and that the point of a curve is the Bernstein
//! sum of its control values.
use vstd::prelude::*;
use vstd::arithmetic::div_mod::{
    lemma_add_mod_noop,
    lemma_mod_division_less_than_divisor,
    lemma_mul_mod_noop_general,
    lemma_sub_mod_noop,
};
use vstd::std_specs::convert::FromSpecImpl;
use vstd::std_specs::ops::{AddSpecImpl, DivSpecImpl, MulSpecImpl, SubSpecImpl};
use core::ops::{Add, Div, Mul, Sub};
use crate::bezier::laws::{blends_commute, commutes_on, lemma_split_order_independent};
use crate::bezier::rectangle::{can_halve, halves_exactly, Patch};
use crate::bezier::bernstein::{bernstein_sum, blend, lemma_blend_is_bernstein_sum};
use crate::math::{Axis2D, blends_exactly, can_blend, de_casteljau, lerp_spec, one};

verus! {

/// The modulus, the prime 2^31 - 1.
pub const MODULUS: u32 = 2147483647;

/// An integer modulo `MODULUS`.  Values from the modulus on are taken
/// modulo it by every operation.
#[derive(Debug, Clone, Copy)]
pub struct Residue {
    pub value: u32,
}

/// The residue of an integer.
pub open spec fn residue_of(x: int) -> Residue {
    Residue { value: (x % (MODULUS as int)) as u32 }
}

/// `x` to the power of `e`, modulo the modulus, by squaring.
pub open spec fn power_mod(x: int, e: nat) -> int
    decreases e,
{
    if e == 0 {
        1
    } else {
        let root = power_mod(x, e / 2);
        let square = root * root % (MODULUS as int);
        if e % 2 == 1 {
            square * x % (MODULUS as int)
        } else {
            square
        }
    }
}

/// `x` to the power of `e`, modulo the modulus.
fn raise(x: u32, e: u32) -> (r: u32)
    ensures
        r == power_mod(x as int, e as nat),
        r < MODULUS,
    decreases e,
{
    if e == 0 {
        1
    } else {
        let root = raise(x, e / 2) as u64;
        assert(root * root <= 0xffff_ffff * 0xffff_ffff) by (nonlinear_arith)
            requires
                root <= 0xffff_ffff,
        ;
        let square = root * root % (MODULUS as u64);
        if e % 2 == 1 {
            assert(square * x <= 0xffff_ffff * 0xffff_ffff) by (nonlinear_arith)
                requires
                    square <= 0xffff_ffff,
                    x <= 0xffff_ffff,
            ;
            (square * (x as u64) % (MODULUS as u64)) as u32
        } else {
            square as u32
        }
    }
}

impl Residue {
    /// The residue of a number.
    pub fn new(value: u32) -> (r: Self)
        ensures
            r == residue_of(value as int),
    {
        Residue { value: value % MODULUS }
    }
}

impl From<u8> for Residue {
    fn from(v: u8) -> (r: Residue) {
        Residue { value: v as u32 }
    }
}

impl FromSpecImpl<u8> for Residue {
    open spec fn obeys_from_spec() -> bool {
        true
    }

    open spec fn from_spec(v: u8) -> Residue {
        Residue { value: v as u32 }
    }
}

impl Add for Residue {
    type Output = Residue;

    fn add(self, rhs: Residue) -> (r: Residue) {
        Residue { value: ((self.value as u64 + rhs.value as u64) % (MODULUS as u64)) as u32 }
    }
}

impl AddSpecImpl for Residue {
    open spec fn obeys_add_spec() -> bool {
        true
    }

    open spec fn add_req(self, rhs: Residue) -> bool {
        true
    }

    open spec fn add_spec(self, rhs: Residue) -> Residue {
        residue_of(self.value + rhs.value)
    }
}

impl Sub for Residue {
    type Output = Residue;

    fn sub(self, rhs: Residue) -> (r: Residue) {
        proof {
            lemma_residue_of_difference(self.value as int, rhs.value as int);
        }
        let back = rhs.value % MODULUS;
        Residue {
            value: ((self.value as u64 + (MODULUS - back) as u64) % (MODULUS as u64)) as u32,
        }
    }
}

impl SubSpecImpl for Residue {
    open spec fn obeys_sub_spec() -> bool {
        true
    }

    open spec fn sub_req(self, rhs: Residue) -> bool {
        true
    }

    open spec fn sub_spec(self, rhs: Residue) -> Residue {
        residue_of(self.value - rhs.value)
    }
}

impl Mul for Residue {
    type Output = Residue;

    fn mul(self, rhs: Residue) -> (r: Residue) {
        assert(self.value * rhs.value <= 0xffff_ffff * 0xffff_ffff) by (nonlinear_arith)
            requires
                self.value <= 0xffff_ffff,
                rhs.value <= 0xffff_ffff,
        ;
        Residue { value: ((self.value as u64) * (rhs.value as u64) % (MODULUS as u64)) as u32 }
    }
}

impl MulSpecImpl for Residue {
    open spec fn obeys_mul_spec() -> bool {
        true
    }

    open spec fn mul_req(self, rhs: Residue) -> bool {
        true
    }

    open spec fn mul_spec(self, rhs: Residue) -> Residue {
        residue_of(self.value * rhs.value)
    }
}

impl Div for Residue {
    type Output = Residue;

    /// Multiplies by the power `MODULUS - 2` of the divisor, which is its
    /// inverse where it has one.
    fn div(self, rhs: Residue) -> (r: Residue) {
        let inverse = raise(rhs.value, MODULUS - 2);
        assert(self.value * inverse <= 0xffff_ffff * 0xffff_ffff) by (nonlinear_arith)
            requires
                self.value <= 0xffff_ffff,
                inverse <= 0xffff_ffff,
        ;
        Residue { value: ((self.value as u64) * (inverse as u64) % (MODULUS as u64)) as u32 }
    }
}

impl DivSpecImpl for Residue {
    open spec fn obeys_div_spec() -> bool {
        true
    }

    open spec fn div_req(self, rhs: Residue) -> bool {
        true
    }

    open spec fn div_spec(self, rhs: Residue) -> Residue {
        residue_of(self.value * power_mod(rhs.value as int, (MODULUS - 2) as nat))
    }
}

/// Adding the modulus less the residue of `b` subtracts `b`, modulo the
/// modulus.
proof fn lemma_residue_of_difference(a: int, b: int)
    ensures
        (a + (MODULUS - b % (MODULUS as int))) % (MODULUS as int) == (a - b) % (MODULUS as int),
{
    let m = MODULUS as int;
    lemma_sub_mod_noop(a + m, b, m);
    lemma_sub_mod_noop(a + m, b % m, m);
    vstd::arithmetic::div_mod::lemma_mod_twice(b, m);
    vstd::arithmetic::div_mod::lemma_mod_add_multiples_vanish(a - b, m);
}

/// What interpolation gives on residues: the residue of
/// `a * (1 - t) + b * t`, computed in the integers.
pub proof fn lemma_residue_lerp(a: Residue, b: Residue, t: Residue)
    ensures
        lerp_spec(a, b, t) == residue_of(a.value * (1 - t.value) + b.value * t.value),
{
    let m = MODULUS as int;
    let rest = (1 - t.value) % m;
    lemma_mul_mod_noop_general(a.value as int, 1 - t.value, m);
    lemma_add_mod_noop(a.value * (1 - t.value), b.value * t.value, m);
    let complement = vstd::std_specs::ops::SubSpec::sub_spec(one::<Residue>(), t);
    assert(complement.value == rest);
    assert(vstd::std_specs::ops::MulSpec::mul_spec(a, complement).value == (a.value * rest) % m);
}

/// The residue of an integer is the residue of any integer congruent to
/// it.
proof fn lemma_residue_of_residue(x: int)
    ensures
        residue_of(x).value == x % (MODULUS as int),
        0 <= x % (MODULUS as int) < MODULUS,
{
    lemma_mod_division_less_than_divisor(x, MODULUS as int);
}

/// On residues, interpolation at one parameter and at another commute.
pub proof fn lemma_residue_commutes_on(
    a: Residue,
    b: Residue,
    c: Residue,
    d: Residue,
    s: Residue,
    t: Residue,
)
    ensures
        commutes_on(a, b, c, d, s, t),
{
    let m = MODULUS as int;
    let (av, bv, cv, dv) = (a.value as int, b.value as int, c.value as int, d.value as int);
    let (sv, tv) = (s.value as int, t.value as int);
    // along t first, then along s
    let x = av * (1 - tv) + bv * tv;
    let y = cv * (1 - tv) + dv * tv;
    lemma_residue_lerp(a, b, t);
    lemma_residue_lerp(c, d, t);
    lemma_residue_lerp(residue_of(x), residue_of(y), s);
    lemma_residue_of_residue(x);
    lemma_residue_of_residue(y);
    lemma_mul_mod_noop_general(x, 1 - sv, m);
    lemma_mul_mod_noop_general(y, sv, m);
    lemma_add_mod_noop((x % m) * (1 - sv), (y % m) * sv, m);
    lemma_add_mod_noop(x * (1 - sv), y * sv, m);
    // along s first, then along t
    let u = av * (1 - sv) + cv * sv;
    let v = bv * (1 - sv) + dv * sv;
    lemma_residue_lerp(a, c, s);
    lemma_residue_lerp(b, d, s);
    lemma_residue_lerp(residue_of(u), residue_of(v), t);
    lemma_residue_of_residue(u);
    lemma_residue_of_residue(v);
    lemma_mul_mod_noop_general(u, 1 - tv, m);
    lemma_mul_mod_noop_general(v, tv, m);
    lemma_add_mod_noop((u % m) * (1 - tv), (v % m) * tv, m);
    lemma_add_mod_noop(u * (1 - tv), v * tv, m);
    lemma_blend_square(av, bv, cv, dv, 1 - tv, tv, 1 - sv, sv);
}

/// Blending four numbers with the weights `p`, `t` along one axis and `q`,
/// `s` along the other gives the same in either order.
proof fn lemma_blend_square(a: int, b: int, c: int, d: int, p: int, t: int, q: int, s: int)
    ensures
        (a * p + b * t) * q + (c * p + d * t) * s == (a * q + c * s) * p + (b * q + d * s) * t,
{
    assert((a * p + b * t) * q == a * p * q + b * t * q) by (nonlinear_arith);
    assert((c * p + d * t) * s == c * p * s + d * t * s) by (nonlinear_arith);
    assert((a * q + c * s) * p == a * q * p + c * s * p) by (nonlinear_arith);
    assert((b * q + d * s) * t == b * q * t + d * s * t) by (nonlinear_arith);
    assert(a * p * q == a * q * p) by (nonlinear_arith);
    assert(b * t * q == b * q * t) by (nonlinear_arith);
    assert(c * p * s == c * s * p) by (nonlinear_arith);
    assert(d * t * s == d * s * t) by (nonlinear_arith);
}

/// Residues can be interpolated, halved and split, their arithmetic is
/// exact, and interpolation at any two parameters commutes.
pub proof fn lemma_residue_is_exact()
    ensures
        can_blend::<Residue, Residue>(),
        blends_exactly::<Residue, Residue>(),
        can_halve::<Residue>(),
        halves_exactly::<Residue>(),
        forall|s: Residue, t: Residue| #[trigger] blends_commute::<Residue, Residue>(s, t),
{
    assert forall|s: Residue, t: Residue| #[trigger] blends_commute::<Residue, Residue>(s, t) by {
        assert forall|a: Residue, b: Residue, c: Residue, d: Residue| #[trigger]
            commutes_on(a, b, c, d, s, t) by {
            lemma_residue_commutes_on(a, b, c, d, s, t);
        }
    }
}

/// Order independence for patches over the residues: a split along u and
/// then one of each half along v gives the same four quadrants as a split
/// along v and then one of each half along u, at any two parameters.
pub proof fn lemma_residue_split_order_independent(
    p: Patch<Residue, Residue>,
    w: nat,
    h: nat,
    s: Residue,
    t: Residue,
)
    requires
        p.fits(w, h),
        w >= 1,
        h >= 1,
    ensures
        ({
            let (left, right) = p.split(w, h, Axis2D::U, t);
            let (top, bottom) = p.split(w, h, Axis2D::V, s);
            &&& left.split(w, h, Axis2D::V, s).0 == top.split(w, h, Axis2D::U, t).0
            &&& left.split(w, h, Axis2D::V, s).1 == bottom.split(w, h, Axis2D::U, t).0
            &&& right.split(w, h, Axis2D::V, s).0 == top.split(w, h, Axis2D::U, t).1
            &&& right.split(w, h, Axis2D::V, s).1 == bottom.split(w, h, Axis2D::U, t).1
        }),
{
    lemma_residue_is_exact();
    assert(blends_commute::<Residue, Residue>(s, t));
    lemma_split_order_independent(p, w, h, s, t);
}

/// The numbers that a row of residues holds.
pub open spec fn values_of(row: Seq<Residue>) -> Seq<int> {
    Seq::new(row.len(), |j: int| row[j].value as int)
}

/// A de Casteljau point of a row of residues is, modulo the modulus, the de
/// Casteljau point of its numbers in the integers.
pub proof fn lemma_residue_de_casteljau(row: Seq<Residue>, t: Residue, k: nat, i: int)
    requires
        0 <= i,
        i + k < row.len(),
    ensures
        (de_casteljau(row, t, k, i).value as int) % (MODULUS as int) == blend(
            values_of(row),
            t.value as int,
            k,
            i,
        ) % (MODULUS as int),
    decreases k,
{
    if k > 0 {
        let m = MODULUS as int;
        let below = (k - 1) as nat;
        let tv = t.value as int;
        let x = de_casteljau(row, t, below, i);
        let y = de_casteljau(row, t, below, i + 1);
        let bx = blend(values_of(row), tv, below, i);
        let by = blend(values_of(row), tv, below, i + 1);
        lemma_residue_de_casteljau(row, t, below, i);
        lemma_residue_de_casteljau(row, t, below, i + 1);
        lemma_residue_lerp(x, y, t);
        lemma_residue_of_residue(x.value * (1 - tv) + y.value * tv);
        // the two products may be taken of any numbers congruent to the points
        lemma_mul_mod_noop_general(x.value as int, 1 - tv, m);
        lemma_mul_mod_noop_general(bx, 1 - tv, m);
        lemma_mul_mod_noop_general(y.value as int, tv, m);
        lemma_mul_mod_noop_general(by, tv, m);
        lemma_add_mod_noop(x.value * (1 - tv), y.value * tv, m);
        lemma_add_mod_noop(bx * (1 - tv), by * tv, m);
        vstd::arithmetic::div_mod::lemma_mod_twice(x.value * (1 - tv) + y.value * tv, m);
        assert(bx * (1 - tv) + by * tv == (1 - tv) * bx + tv * by) by (nonlinear_arith);
    }
}

/// The point of a curve over the residues is the Bernstein sum of its
/// control values: where the curve has `n + 1` control values, its point at
/// `t` is, modulo the modulus, the sum of `binomial(n, j) * (1 - t)^(n - j)
/// * t^j` times control value `j`.
pub proof fn lemma_residue_curve_point(row: Seq<Residue>, t: Residue)
    requires
        row.len() >= 1,
    ensures
        (de_casteljau(row, t, (row.len() - 1) as nat, 0).value as int) % (MODULUS as int)
            == bernstein_sum(
            values_of(row),
            t.value as int,
            (row.len() - 1) as nat,
            0,
            row.len(),
        ) % (MODULUS as int),
{
    let n = (row.len() - 1) as nat;
    lemma_residue_de_casteljau(row, t, n, 0);
    lemma_blend_is_bernstein_sum(values_of(row), t.value as int, n, 0);
}

} // verus!
