use bezier_patch::math::{compute_triangular_scheme, lerp, triangular_number};

#[test]
fn triangular_numbers() {
    assert_eq!(triangular_number(0), 0);
    assert_eq!(triangular_number(1), 1);
    for i in 1..10 {
        let a = triangular_number(i - 1);
        let b = triangular_number(i);
        assert_eq!(a + i, b);
    }
}

#[test]
fn linear_interpolation() {
    let examples = vec![
        (0., 0., 0., 0.),
        (0., 2., 0., 0.),
        (0., 2., 1., 2.),
        (0., 2., 0.5, 1.),
        (-1., 1., 0.5, 0.),
        (0., 1., -1., -1.),
        (0., 1., 2., 2.),
    ];
    for (a, b, t, r) in examples {
        let got: f64 = lerp(a, b, t);
        assert_eq!(got, r);
    }
}

#[test]
fn triangular_scheme() {
    let row = [0., 4., 6., 9.];
    let res: Vec<f64> = compute_triangular_scheme(&row, 0.5);
    let expected = [0., 4., 6., 9., 2., 5., 7.5, 3.5, 6.25, 4.875];
    assert_eq!(res, expected);
}
