use bevy::prelude::Vec3;
use bezier_patch::bezier::curve::BezierCurve;
use bezier_patch::bezier::triangle::BezierTriangle;
use bezier_patch::builder::{
    build_patches, build_triangles, line_length, match_line_type, offtype_id, LineType,
    MeshBuilder, OffType,
};
use bezier_patch::text::{chars_of, read_index};
use bezier_patch::util::{file_exists, found_or_error};
use Vec3 as Color;

#[test]
fn bezier_initialization() {
    let three_colors = [Color::new(1., 0., 0.), Color::new(0., 1., 0.), Color::new(0., 0., 1.)];

    let pts1 = [1., 2., 3., 4.];
    let pts3 = [1., 2., 3., 4., 5., 6.];
    let _b = BezierCurve::<f64, 3>::new(pts1);
    let _t = BezierTriangle::<f64, _, 2>::new(pts3, three_colors);

    let v1 = Vec3::new(1., 2., 3.);
    let v2 = Vec3::new(1., 4., 3.);
    let v3 = Vec3::new(3., 2., 3.);
    let pts4 = [v1, v2, v3];
    let _b2 = BezierCurve::<_, 2>::new(pts4);
    let _b3 = BezierCurve::<f64, 0>::new([3.]);
}

#[test]
fn curve_initialization() {
    let pts1 = [1., 2., 3., 4.];
    let v1 = Vec3::new(1., 2., 3.);
    let v2 = Vec3::new(1., 4., 3.);
    let v3 = Vec3::new(3., 2., 3.);
    let pts2 = [v1, v2, v3];
    let _b1 = BezierCurve::<f32, 3>::new(pts1);
    let _b2 = BezierCurve::<_, 2>::new(pts2);
    let _b3 = BezierCurve::<f32, 0>::new([3.]);
}

#[test]
fn triangle_initialization() {
    let three_colors = [Color::new(1., 0., 0.), Color::new(0., 1., 0.), Color::new(0., 0., 1.)];

    let pts = [1., 2., 3., 4., 5., 6.];
    let t = BezierTriangle::<f32, _, 2>::new(pts, three_colors);
    assert_eq!(*t.points(), pts);
    assert_eq!(*t.colors(), three_colors);
}

#[test]
fn curve_point_and_parts() {
    let curve = BezierCurve::<f64, 3>::new([0., 4., 6., 9.]);
    assert_eq!(curve.evaluate(0.5), 4.875);
    assert_eq!(curve.evaluate(0.), 0.);
    assert_eq!(curve.evaluate(1.), 9.);
    let (before, after) = curve.subdivide(0.5);
    assert_eq!(*before.points(), [0., 2., 3.5, 4.875]);
    assert_eq!(*after.points(), [4.875, 6.25, 7.5, 9.]);
    let point = BezierCurve::<f64, 0>::new([3.]);
    assert_eq!(point.evaluate(0.25), 3.);
    let (before, after) = point.subdivide(0.25);
    assert_eq!(*before.points(), [3.]);
    assert_eq!(*after.points(), [3.]);
}

#[test]
fn kinds_of_objects() {
    let kinds = [
        OffType::Unknown,
        OffType::Off,
        OffType::Rect11,
        OffType::Rect22,
        OffType::Rect33,
        OffType::Rect44,
    ];
    let lengths = [0, 1, 8, 13, 20, 29];
    for k in 0..6 {
        assert_eq!(offtype_id(&kinds[k]), k);
        assert_eq!(line_length(kinds[k]), lengths[k]);
    }
}

#[test]
fn headers_and_values() {
    let kind = |line: &str| match match_line_type(&line.to_string()) {
        LineType::Header(t) => offtype_id(&t),
        LineType::Values => 99,
    };
    assert_eq!(kind("OFF"), 1);
    assert_eq!(kind("COFF"), 1);
    assert_eq!(kind("CBEZ113"), 2);
    assert_eq!(kind("CBEZ223"), 3);
    assert_eq!(kind("CBEZ333"), 4);
    assert_eq!(kind("CBEZ443"), 5);
    assert_eq!(kind("CBEZ553"), 99);
    assert_eq!(kind("OFF "), 99);
    assert_eq!(kind("off"), 99);
    assert_eq!(kind("1 2 3"), 99);
    assert_eq!(kind(""), 99);
}

#[test]
fn indices_in_decimal() {
    assert_eq!(read_index(&chars_of("0")), Some(0));
    assert_eq!(read_index(&chars_of("+17")), Some(17));
    assert_eq!(read_index(&chars_of("0042")), Some(42));
    assert_eq!(read_index(&chars_of("")), None);
    assert_eq!(read_index(&chars_of("+")), None);
    assert_eq!(read_index(&chars_of("-1")), None);
    assert_eq!(read_index(&chars_of("1.0")), None);
    assert_eq!(read_index(&chars_of("12a")), None);
    assert_eq!(read_index(&chars_of("18446744073709551615")), "18446744073709551615".parse().ok());
    assert_eq!(read_index(&chars_of("18446744073709551616")), "18446744073709551616".parse().ok());
    assert_eq!(read_index(&chars_of("99999999999999999999999")), None);
}

fn rows(lines: &[&str]) -> Vec<Vec<char>> {
    lines.iter().map(|l| chars_of(l)).collect()
}

#[test]
fn faces_of_an_off_object() {
    let bucket = rows(&[
        "4 2 0",
        "0 0 0",
        "1 0 0 1 0 0",
        "0 1 0",
        "1 1 0",
        "3 0 1 2",
        "4 0 1 2 3",
        "3 1 3 9",
        "3 1 x 2",
        "3 1 3 2",
    ]);
    let triangles = build_triangles(&bucket, Color::new(0.8, 0.8, 0.8));
    assert_eq!(triangles.len(), 2);
    assert_eq!(triangles[0].points, [Vec3::ZERO, Vec3::X, Vec3::Y]);
    assert_eq!(triangles[0].colors, [Color::new(0.8, 0.8, 0.8); 3]);
    assert_eq!(triangles[0].normals, [Vec3::Z; 3]);
    assert_eq!(triangles[1].points, [Vec3::X, Vec3::new(1., 1., 0.), Vec3::Y]);
    assert_eq!(triangles[1].normals, [Vec3::Z; 3]);
}

#[test]
fn off_object_without_its_lines() {
    let color = Color::ONE;
    assert_eq!(build_triangles(&rows(&[]), color).len(), 0);
    assert_eq!(build_triangles(&rows(&["   "]), color).len(), 0);
    assert_eq!(build_triangles(&rows(&["x 1 0", "0 0 0"]), color).len(), 0);
    assert_eq!(build_triangles(&rows(&["3 1 0", "0 0 0", "1 0 0"]), color).len(), 0);
    // a face may name any line behind the first, itself too
    assert_eq!(build_triangles(&rows(&["0 1 0", "3 0 0 0"]), color).len(), 1);
    assert_eq!(build_triangles(&rows(&["0 1 0", "3 0 0 1"]), color).len(), 0);
    assert_eq!(build_triangles(&rows(&["0 1 0", "3 1 1 1", "0 0 0 1 1 1"]), color).len(), 1);
}

#[test]
fn patches_of_a_bucket() {
    let one = ["0 0 0", "1 0 0", "0 1 0", "1 1 0", "1 0 0", "0 1 0", "0 0 1", "1 1 1"];
    let bad = ["0 0 0", "1 0 0", "0 1", "1 1 0", "1 0 0", "0 1 0", "0 0 1", "1 1 1"];
    let two = ["0 0 2", "1 0 2", "0 1 2", "1 1 2", "1 0 0", "0 1 0", "0 0 1", "1 1 1"];
    let mut lines: Vec<&str> = Vec::new();
    lines.extend(one);
    lines.extend(bad);
    lines.extend(two);
    lines.extend(&one[..5]);
    let patches = build_patches::<1, 1>(&rows(&lines));
    assert_eq!(patches.len(), 2);
    assert_eq!(patches[0].points()[3], Vec3::new(1., 1., 0.));
    assert_eq!(patches[1].points()[3], Vec3::new(1., 1., 2.));
    assert_eq!(*patches[1].colors(), [Vec3::X, Vec3::Y, Vec3::Z, Vec3::ONE]);
    // as patches of degree two the same lines make two runs of thirteen,
    // the first of which holds the short line
    let wider = build_patches::<2, 2>(&rows(&lines));
    assert_eq!(wider.len(), 1);
    assert_eq!(wider[0].points()[0], Vec3::new(0., 1., 0.));
    assert_eq!(build_patches::<4, 4>(&rows(&lines)).len(), 0);
}

#[test]
fn scene_with_triangles_and_a_patch() {
    let text = "0 0 0
COFF
3 1 0
0 0 0 1 0 0
1 0 0 0 1 0
0 1 0 0 0 1

3 0 1 2
CBEZ113
0 0 0
1 0 0
0 1 0
1 1 1
1 0 0
0 1 0
0 0 1
1 1 1
OFF
3 2 1 0
";
    let lines: Vec<String> = text.lines().map(|l| l.to_string()).collect();
    let builder = MeshBuilder::new(Color::new(0.8, 0.8, 0.8));
    let meshes = builder.parse_lines::<f32>(&lines).unwrap();
    assert_eq!(meshes.len(), 5);
    // the lines of both OFF sections fall into one bucket: the first says
    // that three vertices follow, so the faces start at its fifth line
    assert_eq!(meshes[0].indices, [0, 1, 2, 3, 4, 5]);
    assert_eq!(meshes[0].positions[..3], [Vec3::ZERO, Vec3::X, Vec3::Y]);
    assert_eq!(meshes[0].colors[..3], [Vec3::X, Vec3::Y, Vec3::Z]);
    assert_eq!(meshes[0].positions[3..], [Vec3::Y, Vec3::X, Vec3::ZERO]);
    assert_eq!(meshes[0].normals[3..], [-Vec3::Z; 3]);
    // one patch of degree one is quartered five times
    assert_eq!(meshes[1].indices.len(), 6 * 1024);
    assert_eq!(meshes[1].positions.len(), 6 * 1024);
    assert_eq!(meshes[1].indices[6143], 6143);
    assert_eq!(meshes[1].positions[0], Vec3::ZERO);
    assert_eq!(meshes[1].colors[0], Vec3::X);
    assert_eq!(meshes[1].positions[6 * 1023 + 4], Vec3::new(1., 1., 1.));
    assert_eq!(meshes[1].colors[6 * 1023 + 4], Vec3::ONE);
    for k in 2..5 {
        assert!(meshes[k].indices.is_empty());
        assert!(meshes[k].positions.is_empty());
    }
}

#[test]
fn builder_takes_lines_one_by_one() {
    let mut builder = MeshBuilder::new(Color::ONE);
    for line in ["CBEZ113", "0 0 0", "1 0 0", "0 1 0", "1 1 0", "1 0 0", "0 1 0"] {
        builder.take_line(&line.to_string());
    }
    let rest: Vec<String> = ["", "0 0 1", "1 1 1"].iter().map(|l| l.to_string()).collect();
    let meshes = builder.parse_lines::<f32>(&rest).unwrap();
    assert_eq!(meshes[1].indices.len(), 6 * 1024);
    assert!(meshes[0].indices.is_empty());
}

#[test]
fn existing_and_missing_paths() {
    assert_eq!(file_exists("/"), Ok("/".to_string()));
    assert_eq!(
        file_exists("/no/such/file/anywhere"),
        Err("File not found".to_string())
    );
    assert_eq!(found_or_error("a.off", true), Ok("a.off".to_string()));
    assert_eq!(found_or_error("a.off", false), Err("File not found".to_string()));
}
