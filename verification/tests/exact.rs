use bezier_patch::bezier::curve::BezierCurve;
use bezier_patch::bezier::rectangle::BezierRectangle;
use bezier_patch::math::{compute_triangular_scheme, lerp, Axis2D};
use bezier_patch::residue::{Residue, MODULUS};

fn r(value: u32) -> Residue {
    Residue::new(value)
}

fn values(v: &[Residue]) -> Vec<u32> {
    v.iter().map(|x| x.value).collect()
}

#[test]
fn residues_wrap_at_the_modulus() {
    assert_eq!(MODULUS, (1 << 31) - 1);
    assert_eq!(r(MODULUS).value, 0);
    assert_eq!(r(MODULUS + 5).value, 5);
    assert_eq!((r(MODULUS - 1) + r(3)).value, 2);
    assert_eq!((r(2) - r(5)).value, MODULUS - 3);
    assert_eq!((r(1 << 16) * r(1 << 16)).value, 2);
    assert_eq!(Residue::from(200u8).value, 200);
    // values that are not reduced are taken modulo the modulus
    let big = Residue { value: u32::MAX };
    assert_eq!((big + big).value, 2);
    assert_eq!((r(0) - big).value, MODULUS - 1);
    assert_eq!((big * big).value, 1);
}

#[test]
fn residues_divide() {
    let half = r(1) / r(2);
    assert_eq!(half.value, 1 << 30);
    assert_eq!((half + half).value, 1);
    for x in [1, 2, 3, 1000, 123456789, MODULUS - 1] {
        assert_eq!((r(x) / r(x)).value, 1);
        assert_eq!(((r(7) / r(x)) * r(x)).value, 7);
    }
    assert_eq!((r(5) / r(0)).value, 0);
}

#[test]
fn interpolation_of_residues() {
    assert_eq!(lerp(r(0), r(4), r(2)).value, 8);
    assert_eq!(lerp(r(4), r(6), r(2)).value, 8);
    assert_eq!(lerp(r(10), r(20), r(0)).value, 10);
    assert_eq!(lerp(r(10), r(20), r(1)).value, 20);
    let half = r(1) / r(2);
    assert_eq!(lerp(r(10), r(20), half).value, 15);
    let row = [r(0), r(4), r(6), r(9)];
    let scheme = compute_triangular_scheme(&row, r(2));
    assert_eq!(values(&scheme), [0, 4, 6, 9, 8, 8, 12, 8, 16, 24]);
    let curve = BezierCurve::<Residue, 3>::new(row);
    assert_eq!(curve.evaluate(r(2)).value, 24);
    // eight times the point at one half is 39, as 8 * 4.875 is
    assert_eq!((curve.evaluate(half) * r(8)).value, 39);
}

#[test]
fn split_orders_agree_on_residues() {
    // some values all over the field
    let mut seed: u64 = 12345;
    let mut next = || {
        seed = seed.wrapping_mul(6364136223846793005).wrapping_add(1442695040888963407);
        r((seed >> 33) as u32)
    };
    let mut points = [r(0); 12];
    for p in points.iter_mut() {
        *p = next();
    }
    let colors = [next(), next(), next(), next()];
    let surf = BezierRectangle::<Residue, Residue, 3, 2>::new(points, colors);
    for _ in 0..5 {
        let (s, t) = (next(), next());
        let (al, ar) = surf.subdivide(Axis2D::U, t);
        let (atl, abl) = al.subdivide(Axis2D::V, s);
        let (atr, abr) = ar.subdivide(Axis2D::V, s);
        let (bt, bb) = surf.subdivide(Axis2D::V, s);
        let (btl, btr) = bt.subdivide(Axis2D::U, t);
        let (bbl, bbr) = bb.subdivide(Axis2D::U, t);
        for (a, b) in [(&atl, &btl), (&abl, &bbl), (&atr, &btr), (&abr, &bbr)] {
            assert_eq!(values(a.points()), values(b.points()));
            assert_eq!(values(a.colors()), values(b.colors()));
        }
    }
}

#[test]
fn curve_point_is_the_bernstein_sum() {
    // binomial(3, j) * (1 - t)^(3 - j) * t^j at t = 2 is -1, 6, -12, 8
    let row = [r(0), r(4), r(6), r(9)];
    let curve = BezierCurve::<Residue, 3>::new(row);
    assert_eq!(curve.evaluate(r(2)).value, 6 * 4 + 8 * 9 - 12 * 6);
    // at t = 3 the weights are -8, 36, -54, 27
    let row = [r(5), r(1), r(2), r(7)];
    let curve = BezierCurve::<Residue, 3>::new(row);
    let expected = (36 * 1 + 27 * 7) as i64 - (8 * 5 + 54 * 2) as i64;
    assert_eq!(curve.evaluate(r(3)).value as i64, expected);
    // a sum below zero is taken modulo the modulus
    let row = [r(10), r(0), r(0)];
    let curve = BezierCurve::<Residue, 2>::new(row);
    assert_eq!(curve.evaluate(r(2)).value, 10);
    let row = [r(0), r(10), r(0)];
    let curve = BezierCurve::<Residue, 2>::new(row);
    assert_eq!(curve.evaluate(r(2)).value, MODULUS - 40);
}
