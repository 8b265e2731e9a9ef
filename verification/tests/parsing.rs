use bevy::prelude::Vec3;
use bezier_patch::bezier::rectangle::{BezierRectangle, FromString};
use bezier_patch::math::Axis2D;
use bezier_patch::text::{chars_of, split_fields, split_lines};
use bezier_patch::triangle::Triangle;
use std::time::Instant;
use Vec3 as Color;

fn example_cbez123() -> &'static str {
    "0. 0. 0.
            1. 2. 3.
            1. 3. -2.
            2. .1 -.3
            1. 2. 3.
            1. 2. 3.
            1. 1. 0.
            0. 1. 1.
            1. 0. 1.
            1. 0. 1."
}

fn example_cbez333() -> &'static str {
    "0. 0. 0.
            1. 2. 3.
            1. 3. -2.
            2. .1 -.3
            1. 2. 3.
            1. 2. 3.
            1. 2. 3.
            1. 2 3.
            1. 2. 3.
            1. 2. 3.
            1. 2. 3.
            1. 2. 3.
            1. 2. 3.
            1. 2. 3.
            1. 2. 3.
            1. 2. 3.
            1. 1. 0.
            0. 1. 1.
            1. 0. 1.
            1. 0. 1."
}

#[test]
fn rectangle_parse_off_cbez_3d() {
    match BezierRectangle::<Vec3, Vec3, 1, 2>::from_string(example_cbez123()) {
        Ok(b) => {
            assert_eq!(b.points()[0], Vec3::new(0., 0., 0.));
            assert_eq!(b.points()[5], Vec3::new(1., 2., 3.));
            assert_eq!(b.colors()[0], Vec3::new(1., 1., 0.));
            assert_eq!(b.colors()[3], Vec3::new(1., 0., 1.));
        }
        Err(e) => {
            println!("{}", e);
            assert!(false);
        }
    }

    match BezierRectangle::<Vec3, Vec3, 3, 3>::from_string(example_cbez333()) {
        Ok(b) => {
            assert_eq!(b.points()[0], Vec3::new(0., 0., 0.));
            assert_eq!(b.points()[15], Vec3::new(1., 2., 3.));
            assert_eq!(b.colors()[0], Vec3::new(1., 1., 0.));
            assert_eq!(b.colors()[3], Vec3::new(1., 0., 1.));
        }
        Err(e) => {
            println!("{}", e);
            assert!(false);
        }
    }
}

#[test]
fn bezier_parse_off_cbez_3d() {
    match BezierRectangle::<Vec3, Vec3, 1, 2>::from_string(example_cbez123()) {
        Ok(b) => {
            assert_eq!(b.points()[0], Vec3::new(0., 0., 0.));
            assert_eq!(b.points()[5], Vec3::new(1., 2., 3.));
            assert_eq!(b.colors()[0], Vec3::new(1., 1., 0.));
            assert_eq!(b.colors()[3], Vec3::new(1., 0., 1.));
        }
        Err(e) => {
            println!("{}", e);
            assert!(false);
        }
    }

    match BezierRectangle::<Vec3, Vec3, 3, 3>::from_string(example_cbez333()) {
        Ok(b) => {
            assert_eq!(b.points()[0], Vec3::new(0., 0., 0.));
            assert_eq!(b.points()[15], Vec3::new(1., 2., 3.));
            assert_eq!(b.colors()[0], Vec3::new(1., 1., 0.));
            assert_eq!(b.colors()[3], Vec3::new(1., 0., 1.));
        }
        Err(e) => {
            println!("{}", e);
            assert!(false);
        }
    }
}

#[test]
//use cargo test -- --nocapture to see performance numbers
fn bezier_rectangle_subdivide_performance() {
    let surf = BezierRectangle::<Vec3, Vec3, 3, 3>::from_string(example_cbez333()).unwrap();
    let mut old_vec = vec![surf];
    let mut new_vec = Vec::<BezierRectangle<Vec3, Vec3, 3, 3>>::new();
    for _i in 0..9 {
        let now = Instant::now();
        for s in &old_vec {
            let (l, _r) = s.subdivide(Axis2D::U, 0.5f32);
            let (tl, bl) = l.subdivide(Axis2D::V, 0.5f32);
            let (tr, br) = l.subdivide(Axis2D::V, 0.5f32);
            new_vec.push(tl);
            new_vec.push(tr);
            new_vec.push(bl);
            new_vec.push(br);
        }
        let len = new_vec.len();
        let nanos = now.elapsed().as_nanos();
        let secs = nanos as f64 / 1_000_000_000f64;
        let per_surf = nanos / len as u128;
        println!(
            "Computing {} surfaces took {} seconds, that is {} ns per surface",
            len, secs, per_surf
        );
        old_vec.clear();
        (new_vec, old_vec) = (old_vec, new_vec);
    }
}

#[test]
fn parse_triangle_with_colors() {
    let a0 = format!("1.0 3.0 .4 .2 .3 .9");
    let a1 = format!("0 3.0 -.4 .2 0 .9");
    let a2 = format!("-2 3.0 .4 .2 1 .9");
    let t = Triangle::from_string([&a0, &a1, &a2], Color::new(1., 1., 1.)).unwrap();
    assert_eq!(t.points[0], Vec3::new(1., 3., 0.4));
    assert_eq!(t.points[1], Vec3::new(0., 3., -0.4));
    assert_eq!(t.points[2], Vec3::new(-2., 3., 0.4));
    assert_eq!(t.colors[0], Vec3::new(0.2, 0.3, 0.9));
    assert_eq!(t.colors[1], Vec3::new(0.2, 0.0, 0.9));
    assert_eq!(t.colors[2], Vec3::new(0.2, 1., 0.9));
}

#[test]
fn parse_triangle_without_colors() {
    let a0 = format!("1.0 3.0 .4");
    let a1 = format!("0 3.0 -.4");
    let a2 = format!("-2 3.0 .4");
    let t = Triangle::from_string([&a0, &a1, &a2], Color::new(0.8, 0.8, 0.8)).unwrap();
    assert_eq!(t.points[0], Vec3::new(1., 3., 0.4));
    assert_eq!(t.points[1], Vec3::new(0., 3., -0.4));
    assert_eq!(t.points[2], Vec3::new(-2., 3., 0.4));
    assert_eq!(t.colors[0], Vec3::new(0.8, 0.8, 0.8));
    assert_eq!(t.colors[1], Vec3::new(0.8, 0.8, 0.8));
    assert_eq!(t.colors[2], Vec3::new(0.8, 0.8, 0.8));
}

#[test]
fn patch_with_a_short_line() {
    let text = "0 0 0\n1 0\n0 1 0\n1 1 0\n1 0 0\n0 1 0\n0 0 1\n1 1 1";
    let r = BezierRectangle::<Vec3, Vec3, 1, 1>::from_string(text);
    assert_eq!(r.err(), Some("missing vector element".to_string()));
}

#[test]
fn patch_with_a_field_that_is_no_number() {
    let text = "0 0 0\n1 0 x\n0 1 0\n1 1 0\n1 0 0\n0 1 0\n0 0 1\n1 1 1";
    let r = BezierRectangle::<Vec3, Vec3, 1, 1>::from_string(text);
    assert_eq!(r.err(), Some("missing vector element".to_string()));
}

#[test]
fn patch_with_too_few_lines() {
    let text = "0 0 0\n1 0 0\n0 1 0\n1 1 0\n1 0 0\n0 1 0\n0 0 1";
    let r = BezierRectangle::<Vec3, Vec3, 1, 1>::from_string(text);
    assert_eq!(r.err(), Some("7 coordinates given, 8 expected".to_string()));
}

#[test]
fn patch_with_too_many_lines() {
    let text = "0 0 0\n1 0 0\n0 1 0\n1 1 0\n1 0 0\n0 1 0\n0 0 1\n1 1 1\n2 2 2\n3 3 3\n4 4 4\n5 5 5\n";
    let r = BezierRectangle::<Vec3, Vec3, 1, 1>::from_string(text);
    assert_eq!(r.err(), Some("12 coordinates given, 8 expected".to_string()));
}

#[test]
fn patch_lines_may_end_with_a_return() {
    let text = "0 0 0\r\n1 0 0\r\n0 1 0\r\n1 1 0 9 9\r\n1 0 0\r\n0 1 0\r\n0 0 1\r\n1 1 1\r\n";
    let b = BezierRectangle::<Vec3, Vec3, 1, 1>::from_string(text).unwrap();
    assert_eq!(*b.points(), [Vec3::ZERO, Vec3::X, Vec3::Y, Vec3::new(1., 1., 0.)]);
    assert_eq!(*b.colors(), [Vec3::X, Vec3::Y, Vec3::Z, Vec3::ONE]);
}

#[test]
fn triangle_with_a_missing_coordinate() {
    let a0 = format!("1.0 3.0 .4");
    let a1 = format!("0 3.0");
    let a2 = format!("-2 3.0 .4");
    let r = Triangle::from_string([&a0, &a1, &a2], Color::ONE);
    assert_eq!(r.err(), Some("missing vector element".to_string()));
    let r = Triangle::from_string_with_color([&a0, &a0, &a2]);
    assert_eq!(r.err(), Some("missing vector element".to_string()));
}

#[test]
fn triangle_normals_of_its_plane() {
    let a0 = format!("0 0 0");
    let a1 = format!("2 0 0");
    let a2 = format!("0 3 0");
    let colors = [Color::X, Color::Y, Color::Z];
    let t = Triangle::from_string_without_color([&a0, &a1, &a2], colors).unwrap();
    assert_eq!(t.colors, colors);
    assert_eq!(t.normals, [Vec3::Z, Vec3::Z, Vec3::Z]);
}

fn strings(v: Vec<Vec<char>>) -> Vec<String> {
    v.into_iter().map(|f| f.into_iter().collect()).collect()
}

#[test]
fn fields_of_a_line() {
    assert_eq!(strings(split_fields(&chars_of("  1.0\t-2  x\u{a0}y \r"))), ["1.0", "-2", "x", "y"]);
    assert_eq!(strings(split_fields(&chars_of(""))), Vec::<String>::new());
    assert_eq!(strings(split_fields(&chars_of(" \t "))), Vec::<String>::new());
    assert_eq!(strings(split_fields(&chars_of("abc"))), ["abc"]);
}

#[test]
fn lines_of_a_text() {
    assert_eq!(strings(split_lines(&chars_of("a\nb\r\n\nc"))), ["a", "b", "", "c"]);
    assert_eq!(strings(split_lines(&chars_of("a\n"))), ["a"]);
    assert_eq!(strings(split_lines(&chars_of("\n"))), [""]);
    assert_eq!(strings(split_lines(&chars_of(""))), Vec::<String>::new());
    assert_eq!(strings(split_lines(&chars_of("foo\r\nbar\n\nbaz\r"))), ["foo", "bar", "", "baz\r"]);
    let text = "foo\r\nbar\n\nbaz\r\n x \r\r\n";
    let ours = strings(split_lines(&chars_of(text)));
    let theirs: Vec<String> = text.lines().map(|l| l.to_string()).collect();
    assert_eq!(ours, theirs);
}

#[test]
fn patch_with_one_line_too_many() {
    let text = "0 0 0\n".repeat(9);
    let r = BezierRectangle::<Vec3, Vec3, 1, 1>::from_string(&text);
    assert_eq!(r.err(), Some("9 coordinates given, 8 expected".to_string()));
    let text = "0 0 0\n".repeat(4);
    let r = BezierRectangle::<Vec3, Vec3, 1, 1>::from_string(&text);
    assert_eq!(r.err(), Some("4 coordinates given, 8 expected".to_string()));
    let text = "0 0 0\n".repeat(19);
    let r = BezierRectangle::<Vec3, Vec3, 3, 3>::from_string(&text);
    assert_eq!(r.err(), Some("19 coordinates given, 20 expected".to_string()));
    let text = "0 0 0\n".repeat(8);
    assert!(BezierRectangle::<Vec3, Vec3, 1, 1>::from_string(&text).is_ok());
}
