use bevy::math::f64::DVec3;
use bevy::prelude::Vec3;
use bezier_patch::bezier::rectangle::BezierRectangle;
use bezier_patch::math::Axis2D;
use Vec3 as Color;

fn example_bezier_rectangle() -> BezierRectangle<f32, Color, 3, 2> {
    let pts = [4., 0., 4., 0., 4., 0., 4., 4., 4., 0., 0., 4.];
    let four_colors = [
        Color::new(1., 0., 0.),
        Color::new(0., 1., 0.),
        Color::new(0., 0., 1.),
        Color::new(1., 1., 1.),
    ];
    let r = BezierRectangle::<_, _, 3, 2>::new(pts, four_colors);
    r
}

fn example_bezier_rectangle_2() -> BezierRectangle<f32, Color, 3, 3> {
    let pts = [4., 0., 4., 0., 4., 0., 4., 4., 4., 0., 0., 4., 2., 2., 0., 0.];
    let four_colors = [
        Color::new(1., 0., 0.),
        Color::new(0., 1., 0.),
        Color::new(0., 0., 1.),
        Color::new(1., 1., 1.),
    ];
    let r = BezierRectangle::<_, _, 3, 3>::new(pts, four_colors);
    r
}

#[test]
fn bezier_rectangle_subdivide_u() {
    let surf = example_bezier_rectangle();
    let (l, r) = surf.subdivide(Axis2D::U, 0.5f32);
    println!("left {:?}", l);
    println!("right {:?}", r);

    //points at the split line match
    assert_eq!(l.points()[0 + 3], r.points()[0 + 0]);
    assert_eq!(l.points()[4 + 3], r.points()[4 + 0]);
    assert_eq!(l.points()[8 + 3], r.points()[8 + 0]);

    //points on left and right border match with the parent
    assert_eq!(l.points()[0 + 0], surf.points()[0 + 0]);
    assert_eq!(l.points()[4 + 0], surf.points()[4 + 0]);
    assert_eq!(l.points()[8 + 0], surf.points()[8 + 0]);
    assert_eq!(r.points()[0 + 3], surf.points()[0 + 3]);
    assert_eq!(r.points()[4 + 3], surf.points()[4 + 3]);
    assert_eq!(r.points()[8 + 3], surf.points()[8 + 3]);

    //test colors
    assert_eq!(l.colors()[1], Color::new(0.5, 0.5, 0.));
    assert_eq!(l.colors()[3], Color::new(0.5, 0.5, 1.));
    assert_eq!(r.colors()[0], Color::new(0.5, 0.5, 0.));
    assert_eq!(r.colors()[2], Color::new(0.5, 0.5, 1.));
}

#[test]
fn bezier_rectangle_subdivide_v() {
    let surf = example_bezier_rectangle();
    let (t, b) = surf.subdivide(Axis2D::V, 0.5f32);
    println!("top {:?}", t);
    println!("bottom {:?}", b);

    //points at the split line match
    assert_eq!(t.points()[8 + 0], b.points()[0 + 0]);
    assert_eq!(t.points()[8 + 1], b.points()[0 + 1]);
    assert_eq!(t.points()[8 + 2], b.points()[0 + 2]);
    assert_eq!(t.points()[8 + 3], b.points()[0 + 3]);

    //points on top and bottom border match with the parent
    assert_eq!(t.points()[0 + 0], surf.points()[0 + 0]);
    assert_eq!(t.points()[0 + 1], surf.points()[0 + 1]);
    assert_eq!(t.points()[0 + 2], surf.points()[0 + 2]);
    assert_eq!(t.points()[0 + 3], surf.points()[0 + 3]);
    assert_eq!(b.points()[8 + 0], surf.points()[8 + 0]);
    assert_eq!(b.points()[8 + 1], surf.points()[8 + 1]);
    assert_eq!(b.points()[8 + 2], surf.points()[8 + 2]);
    assert_eq!(b.points()[8 + 3], surf.points()[8 + 3]);

    //test colors
    assert_eq!(t.colors()[2], Color::new(0.5, 0.0, 0.5));
    assert_eq!(t.colors()[3], Color::new(0.5, 1.0, 0.5));
    assert_eq!(b.colors()[0], Color::new(0.5, 0.0, 0.5));
    assert_eq!(b.colors()[1], Color::new(0.5, 1.0, 0.5));
}

#[test]
fn bezier_rectangle_subdivide() {
    //take a surface and divide it into left and right
    //rotate the surface and divide it into top and bottom
    //rotate top and bottom back
    //now left == top and right == bottom
    let surf = example_bezier_rectangle_2();
    let (l, r) = surf.subdivide(Axis2D::U, 0.5f32);
    let mut transposed_points = [0.; 16];
    for i in 0..4 {
        for j in 0..4 {
            transposed_points[i * 4 + j] = surf.points()[j * 4 + i];
        }
    }
    let transposed_points = transposed_points;
    let transposed = BezierRectangle::<f32, Color, 3, 3>::new(transposed_points, *surf.colors());
    let (t, b) = transposed.subdivide(Axis2D::V, 0.5f32);
    let mut top_retransposed = [0.; 16];
    let mut bot_retransposed = [0.; 16];
    for i in 0..4 {
        for j in 0..4 {
            top_retransposed[i * 4 + j] = t.points()[j * 4 + i];
            bot_retransposed[i * 4 + j] = b.points()[j * 4 + i];
        }
    }
    assert_eq!(*l.points(), top_retransposed);
    assert_eq!(*r.points(), bot_retransposed);
}

#[test]
fn bezier_rectangle_double_subdivide() {
    //the order of subsequent U- and V-subdivisions does not matter
    let surf = example_bezier_rectangle_2();
    let (al, ar) = surf.subdivide(Axis2D::U, 0.5f32);
    let (atl, abl) = al.subdivide(Axis2D::V, 0.5f32);
    let (atr, abr) = ar.subdivide(Axis2D::V, 0.5f32);

    let (bt, bb) = surf.subdivide(Axis2D::V, 0.5f32);
    let (btl, btr) = bt.subdivide(Axis2D::U, 0.5f32);
    let (bbl, bbr) = bb.subdivide(Axis2D::U, 0.5f32);

    assert_eq!(atl.points(), btl.points());
    assert_eq!(atr.points(), btr.points());
    assert_eq!(abl.points(), bbl.points());
    assert_eq!(abr.points(), bbr.points());
    assert_eq!(atl.colors(), btl.colors());
    assert_eq!(atr.colors(), btr.colors());
    assert_eq!(abl.colors(), bbl.colors());
    assert_eq!(abr.colors(), bbr.colors());
}

#[test]
fn split_values_of_a_row() {
    // one row 0, 4, 6, 9 split at one half
    let colors = [Color::ZERO; 4];
    let curve = BezierRectangle::<f32, Color, 3, 0>::new([0., 4., 6., 9.], colors);
    let (l, r) = curve.subdivide(Axis2D::U, 0.5f32);
    assert_eq!(*l.points(), [0., 2., 3.5, 4.875]);
    assert_eq!(*r.points(), [4.875, 6.25, 7.5, 9.]);
}

#[test]
fn split_orders_differ_where_values_are_rounded() {
    // 1 + 2^-24 is rounded to 1, so that the middle of the patch depends on
    // which pair of corners is averaged first
    let tiny = 2f32.powi(-24);
    let colors = [Color::ZERO; 4];
    let surf = BezierRectangle::<f32, Color, 1, 1>::new([1., tiny, 0., tiny], colors);
    let (l, _) = surf.subdivide(Axis2D::U, 0.5f32);
    let (tl_a, _) = l.subdivide(Axis2D::V, 0.5f32);
    let (t, _) = surf.subdivide(Axis2D::V, 0.5f32);
    let (tl_b, _) = t.subdivide(Axis2D::U, 0.5f32);
    assert_eq!(tl_a.points()[3], 0.25);
    assert_eq!(tl_b.points()[3], 0.25 + 2f32.powi(-25));
    assert_eq!(tl_a.points()[..3], tl_b.points()[..3]);
}

#[test]
fn split_outside_the_unit_interval() {
    let colors = [Color::ZERO, Color::X, Color::Y, Color::ONE];
    let line = BezierRectangle::<f32, Color, 1, 0>::new([0., 1.], colors);
    let (l, r) = line.subdivide(Axis2D::U, 2f32);
    assert_eq!(*l.points(), [0., 2.]);
    assert_eq!(*r.points(), [2., 1.]);
    assert_eq!(l.colors()[1], Color::new(2., 0., 0.));
    assert_eq!(r.colors()[2], Color::new(2., 1., 2.));
    let (l, r) = line.subdivide(Axis2D::U, -1f32);
    assert_eq!(*l.points(), [0., -1.]);
    assert_eq!(*r.points(), [-1., 1.]);
}

#[test]
fn split_of_a_single_row_along_v() {
    // with one row only, both children are copies of it
    let colors = [Color::ZERO, Color::X, Color::Y, Color::ONE];
    let line = BezierRectangle::<f32, Color, 2, 0>::new([0., 1., 4.], colors);
    let (t, b) = line.subdivide(Axis2D::V, 0.5f32);
    assert_eq!(*t.points(), [0., 1., 4.]);
    assert_eq!(*b.points(), [0., 1., 4.]);
    let point = BezierRectangle::<f32, Color, 0, 0>::new([7.], colors);
    let (l, r) = point.subdivide(Axis2D::U, 0.5f32);
    assert_eq!(*l.points(), [7.]);
    assert_eq!(*r.points(), [7.]);
}

#[test]
fn rectangular_bezier_surface_subdivide_u() {
    let pts = [4., 0., 4., 0., 4., 0., 4., 4., 4., 0., 0., 4.];
    let four_colors = [
        DVec3::new(1., 0., 0.),
        DVec3::new(0., 1., 0.),
        DVec3::new(0., 0., 1.),
        DVec3::new(1., 1., 1.),
    ];
    let surf = BezierRectangle::<f64, DVec3, 3, 2>::new(pts, four_colors);
    let (l, r) = surf.subdivide(Axis2D::U, 0.5f64);
    println!("left {:?}", l);
    println!("right {:?}", r);

    //points at the split line match
    assert_eq!(l.points()[0 + 3], r.points()[0 + 0]);
    assert_eq!(l.points()[4 + 3], r.points()[4 + 0]);
    assert_eq!(l.points()[8 + 3], r.points()[8 + 0]);

    //points on left and right border match with the parent
    assert_eq!(l.points()[0 + 0], surf.points()[0 + 0]);
    assert_eq!(l.points()[4 + 0], surf.points()[4 + 0]);
    assert_eq!(l.points()[8 + 0], surf.points()[8 + 0]);
    assert_eq!(r.points()[0 + 3], surf.points()[0 + 3]);
    assert_eq!(r.points()[4 + 3], surf.points()[4 + 3]);
    assert_eq!(r.points()[8 + 3], surf.points()[8 + 3]);

    //test colors
    assert_eq!(l.colors()[1], DVec3::new(0.5, 0.5, 0.));
    assert_eq!(l.colors()[3], DVec3::new(0.5, 0.5, 1.));
    assert_eq!(r.colors()[0], DVec3::new(0.5, 0.5, 0.));
    assert_eq!(r.colors()[2], DVec3::new(0.5, 0.5, 1.));
}
