use bevy::prelude::Vec3;
use bezier_patch::bezier::rectangle::BezierRectangle;
use bezier_patch::triangle::{Spatial, ToTriangle, Triangle};
use std::ops::{Neg, Sub};

#[derive(Debug, Clone, Copy, PartialEq)]
struct V3 {
    x: i64,
    y: i64,
    z: i64,
}

fn v(x: i64, y: i64, z: i64) -> V3 {
    V3 { x, y, z }
}

impl Sub for V3 {
    type Output = V3;
    fn sub(self, o: V3) -> V3 {
        v(self.x - o.x, self.y - o.y, self.z - o.z)
    }
}

impl Neg for V3 {
    type Output = V3;
    fn neg(self) -> V3 {
        v(-self.x, -self.y, -self.z)
    }
}

// a vector type of the test's own: its normalization keeps the length
impl Spatial for V3 {
    fn minus(self, o: V3) -> V3 {
        self - o
    }

    fn negated(self) -> V3 {
        -self
    }

    fn cross(self, o: V3) -> V3 {
        v(self.y * o.z - self.z * o.y, self.z * o.x - self.x * o.z, self.x * o.y - self.y * o.x)
    }

    fn normalize_or_zero(self) -> V3 {
        self
    }
}

#[test]
fn cross_of_axes() {
    assert_eq!(v(1, 0, 0).cross(v(0, 1, 0)), v(0, 0, 1));
    assert_eq!(Spatial::cross(Vec3::X, Vec3::Y), Vec3::Z);
    assert_eq!(Spatial::cross(Vec3::Y, Vec3::X), -Vec3::Z);
    assert_eq!(Spatial::normalize_or_zero(Vec3::new(0., 3., 4.)), Vec3::new(0., 0.6, 0.8));
    assert_eq!(Spatial::normalize_or_zero(Vec3::ZERO), Vec3::ZERO);
    assert_eq!(Spatial::minus(Vec3::new(3., 2., 1.), Vec3::ONE), Vec3::new(2., 1., 0.));
    assert_eq!(Spatial::negated(Vec3::new(3., -2., 0.)), Vec3::new(-3., 2., 0.));
}

#[test]
fn triangle_with_given_normals() {
    let p = [v(0, 0, 0), v(1, 0, 0), v(0, 1, 0)];
    let c = [1u8, 2, 3];
    let n = [v(7, 0, 0), v(0, 8, 0), v(0, 0, 9)];
    let t = Triangle::new_with_normals(p, c, n);
    assert_eq!(t.points, p);
    assert_eq!(t.colors, c);
    assert_eq!(t.normals, n);
}

#[test]
fn triangle_with_normals_of_its_plane() {
    let p = [v(1, 1, 0), v(3, 1, 0), v(1, 4, 0)];
    let t = Triangle::new(p, [0u8; 3]);
    assert_eq!(t.points, p);
    // (2,0,0) x (0,3,0), (-2,3,0) x (-2,0,0), (0,-3,0) x (2,-3,0)
    assert_eq!(t.normals, [v(0, 0, 6), v(0, 0, 6), v(0, 0, 6)]);
    let flat = Triangle::new([Vec3::ZERO, Vec3::X, Vec3::X * 2.], [0u8; 3]);
    assert_eq!(flat.normals, [Vec3::ZERO; 3]);
}

#[test]
fn patch_flattens_to_two_triangles() {
    // a patch of degree 2 by 1 over the integers
    let points = [v(0, 0, 0), v(1, 0, 5), v(2, 0, 0), v(0, 3, 0), v(1, 3, 5), v(2, 3, 1)];
    let colors = ['a', 'b', 'c', 'd'];
    let patch = BezierRectangle::<V3, char, 2, 1>::new(points, colors);
    let triangles = patch.to_triangles();
    assert_eq!(triangles.len(), 2);
    assert_eq!(triangles[0].points, [v(0, 0, 0), v(2, 0, 0), v(0, 3, 0)]);
    assert_eq!(triangles[0].colors, ['a', 'b', 'c']);
    assert_eq!(triangles[1].points, [v(2, 0, 0), v(2, 3, 1), v(0, 3, 0)]);
    assert_eq!(triangles[1].colors, ['b', 'd', 'c']);
    // the corner normals, each from the two boundary steps at its corner
    let n00 = v(1, 0, 5).cross(v(0, 3, 0));
    let n10 = (-v(-1, 0, 5)).cross(v(0, 3, 1));
    let n01 = v(1, 0, 5).cross(-v(0, -3, 0));
    let n11 = (-v(-1, 0, 4)).cross(-v(0, -3, -1));
    assert_eq!(triangles[0].normals, [n00, n01, n10]);
    assert_eq!(triangles[1].normals, [n01, n11, n10]);
}

#[test]
fn flat_patch_has_one_normal() {
    let mut points = [Vec3::ZERO; 9];
    for j in 0..3 {
        for i in 0..3 {
            points[j * 3 + i] = Vec3::new(i as f32, 2. * j as f32, 0.);
        }
    }
    let patch = BezierRectangle::<Vec3, Vec3, 2, 2>::new(points, [Vec3::ONE; 4]);
    let triangles = patch.to_triangles();
    for t in &triangles {
        assert_eq!(t.normals, [Vec3::Z; 3]);
    }
    assert_eq!(triangles[0].points, [points[0], points[2], points[6]]);
    assert_eq!(triangles[1].points, [points[2], points[8], points[6]]);
}

#[test]
fn collapsed_corner_has_the_zero_normal() {
    let points = [Vec3::ZERO, Vec3::ZERO, Vec3::Y, Vec3::new(1., 1., 0.)];
    let patch = BezierRectangle::<Vec3, Vec3, 1, 1>::new(points, [Vec3::ONE; 4]);
    let triangles = patch.to_triangles();
    assert_eq!(triangles[0].normals[0], Vec3::ZERO);
    assert_eq!(triangles[1].normals[1], Vec3::Z);
}

#[test]
fn vertex_streams_of_triangles() {
    let a = Triangle::new_with_normals([1, 2, 3], ['a', 'b', 'c'], [-1, -2, -3]);
    let b = Triangle::new_with_normals([4, 5, 6], ['d', 'e', 'f'], [-4, -5, -6]);
    let mesh = Triangle::triangle_list_to_mesh(vec![a, b]);
    assert_eq!(mesh.indices, [0, 1, 2, 3, 4, 5]);
    assert_eq!(mesh.positions, [1, 2, 3, 4, 5, 6]);
    assert_eq!(mesh.normals, [-1, -2, -3, -4, -5, -6]);
    assert_eq!(mesh.colors, ['a', 'b', 'c', 'd', 'e', 'f']);
    let empty = Triangle::<i32, char>::triangle_list_to_mesh(Vec::new());
    assert!(empty.indices.is_empty() && empty.positions.is_empty());
}
