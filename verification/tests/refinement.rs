use bevy::prelude::Vec3;
use bezier_patch::bezier::rectangle::BezierRectangle;
use bezier_patch::math::Axis2D;
use bezier_patch::subdivision::{Subdivide, SubdivisionSet, REFINEMENT_BUDGET};
use bezier_patch::triangle::ToTriangle;

fn bicubic() -> BezierRectangle<Vec3, Vec3, 3, 3> {
    let mut points = [Vec3::ZERO; 16];
    for j in 0..4 {
        for i in 0..4 {
            let bump = if (i == 1 || i == 2) && (j == 1 || j == 2) { 2. } else { 0. };
            points[j * 4 + i] = Vec3::new(i as f32, j as f32, bump);
        }
    }
    let colors = [Vec3::X, Vec3::Y, Vec3::Z, Vec3::ONE];
    BezierRectangle::<_, _, 3, 3>::new(points, colors)
}

#[test]
fn quadrants_come_in_order() {
    let surf = bicubic();
    let quadrants: Vec<_> = surf.subdivide_cross::<f32>();
    assert_eq!(quadrants.len(), 4);
    let (l, r) = surf.subdivide(Axis2D::U, 0.5f32);
    let (tl, bl) = l.subdivide(Axis2D::V, 0.5f32);
    let (tr, br) = r.subdivide(Axis2D::V, 0.5f32);
    let expected = [tl, bl, tr, br];
    for q in 0..4 {
        assert_eq!(quadrants[q].points(), expected[q].points());
        assert_eq!(quadrants[q].colors(), expected[q].colors());
    }
}

#[test]
fn quadrants_keep_the_outer_corners() {
    let surf = bicubic();
    let quadrants = Subdivide::<f32>::subdivide(&surf);
    assert_eq!(quadrants[0].points()[0], surf.points()[0]);
    assert_eq!(quadrants[1].points()[12], surf.points()[12]);
    assert_eq!(quadrants[2].points()[3], surf.points()[3]);
    assert_eq!(quadrants[3].points()[15], surf.points()[15]);
    assert_eq!(quadrants[0].colors()[0], surf.colors()[0]);
    assert_eq!(quadrants[2].colors()[1], surf.colors()[1]);
    assert_eq!(quadrants[1].colors()[2], surf.colors()[2]);
    assert_eq!(quadrants[3].colors()[3], surf.colors()[3]);
    // the quadrants meet in the middle of the patch
    assert_eq!(quadrants[0].points()[15], quadrants[3].points()[0]);
    assert_eq!(quadrants[1].points()[3], quadrants[2].points()[12]);
    assert_eq!(quadrants[0].colors()[3], Vec3::new(0.5, 0.5, 0.5));
}

#[test]
fn single_patch_is_quartered_five_times() {
    let mut set = SubdivisionSet::new();
    assert_eq!(set.elements.len(), 0);
    set.elements.push(bicubic());
    set.subdivide::<f32>();
    assert_eq!(set.elements.len(), 1024);
    assert!(set.elements.len() >= REFINEMENT_BUDGET);
    let triangles = set.to_triangles();
    assert_eq!(triangles.len(), 2048);
}

#[test]
fn refinement_overshoots_by_whole_passes() {
    for (budget, expected) in [(0, 1), (1, 1), (2, 4), (4, 4), (5, 16), (17, 64), (64, 64)] {
        let mut set = SubdivisionSet::new();
        set.elements.push(bicubic());
        set.refine::<f32>(budget);
        assert_eq!(set.elements.len(), expected);
    }
    let mut set = SubdivisionSet::new();
    set.elements.push(bicubic());
    set.elements.push(bicubic());
    set.elements.push(bicubic());
    set.refine::<f32>(40);
    assert_eq!(set.elements.len(), 48);
    assert_eq!(set.to_triangles().len(), 96);
}

#[test]
fn refinement_keeps_the_order_of_the_elements() {
    let mut set = SubdivisionSet::new();
    set.elements.push(bicubic());
    set.refine::<f32>(16);
    let first: Vec<_> = bicubic().subdivide_cross::<f32>();
    let grandchildren: Vec<_> = first[2].subdivide_cross::<f32>();
    for q in 0..4 {
        assert_eq!(set.elements[8 + q].points(), grandchildren[q].points());
    }
}
