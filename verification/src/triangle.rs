//! Flat triangles with a color and a normal at every vertex.
use vstd::prelude::*;
use bevy::math::Vec3;
use crate::model::views;
use crate::text::{chars_of, fields, split_fields};

verus! {

/// A vector in space, as far as normals need it: the difference of two
/// vectors, the opposite of a vector, a cross product, and a normalization
/// that gives the zero vector where the length is zero.
///
/// As with vstd's operator traits, a type says by `obeys_spatial_spec`
/// whether its methods return what the spec functions name.  A type that
/// says nothing promises nothing.
pub trait Spatial: Copy {
    open spec fn obeys_spatial_spec() -> bool {
        false
    }

    open spec fn minus_spec(self, rhs: Self) -> Self {
        arbitrary()
    }

    open spec fn negated_spec(self) -> Self {
        arbitrary()
    }

    open spec fn cross_spec(self, rhs: Self) -> Self {
        arbitrary()
    }

    open spec fn normalize_or_zero_spec(self) -> Self {
        arbitrary()
    }

    fn minus(self, rhs: Self) -> (r: Self)
        ensures
            Self::obeys_spatial_spec() ==> r == self.minus_spec(rhs),
    ;

    fn negated(self) -> (r: Self)
        ensures
            Self::obeys_spatial_spec() ==> r == self.negated_spec(),
    ;

    fn cross(self, rhs: Self) -> (r: Self)
        ensures
            Self::obeys_spatial_spec() ==> r == self.cross_spec(rhs),
    ;

    fn normalize_or_zero(self) -> (r: Self)
        ensures
            Self::obeys_spatial_spec() ==> r == self.normalize_or_zero_spec(),
    ;
}

/// The methods of the vector type return what their spec functions say.
pub open spec fn measures_exactly<T: Spatial>() -> bool {
    T::obeys_spatial_spec()
}

/// The normal of a triangle at the vertex `at`: the normalized cross
/// product of the edges to the next and to the previous vertex.
pub open spec fn vertex_normal<T: Spatial>(at: T, next: T, previous: T) -> T {
    next.minus_spec(at).cross_spec(previous.minus_spec(at)).normalize_or_zero_spec()
}

/// A triangle: three positions, and a color and a normal for each.  A normal
/// may be the zero vector, where the geometry defines none.
#[derive(Debug)]
pub struct Triangle<T, C> {
    pub points: [T; 3],
    pub colors: [C; 3],
    pub normals: [T; 3],
}

impl<T: Copy, C: Copy> Triangle<T, C> {
    /// A triangle with the normals given.
    pub fn new_with_normals(p: [T; 3], c: [C; 3], n: [T; 3]) -> (r: Self)
        ensures
            r.points == p,
            r.colors == c,
            r.normals == n,
    {
        Triangle { points: p, colors: c, normals: n }
    }
}

impl<T: Spatial, C: Copy> Triangle<T, C> {
    /// A triangle with the normals of its own plane, computed at each
    /// vertex from the two edges that meet there.
    pub fn new(p: [T; 3], c: [C; 3]) -> (r: Self)
        ensures
            r.points == p,
            r.colors == c,
            measures_exactly::<T>() ==> {
                &&& r.normals[0] == vertex_normal(p[0], p[1], p[2])
                &&& r.normals[1] == vertex_normal(p[1], p[2], p[0])
                &&& r.normals[2] == vertex_normal(p[2], p[0], p[1])
            },
    {
        let n0 = p[1].minus(p[0]).cross(p[2].minus(p[0])).normalize_or_zero();
        let n1 = p[2].minus(p[1]).cross(p[0].minus(p[1])).normalize_or_zero();
        let n2 = p[0].minus(p[2]).cross(p[1].minus(p[2])).normalize_or_zero();
        Triangle { points: p, colors: c, normals: [n0, n1, n2] }
    }
}

/// An entity that can be turned into flat triangles.
///
/// `to_triangles_req` says when the method may be called,
/// `triangle_count` how many triangles come out, and `flattens_to` what
/// holds of them.
pub trait ToTriangle<T, C> {
    spec fn to_triangles_req(&self) -> bool;

    spec fn triangle_count(&self) -> nat;

    spec fn flattens_to(&self, triangles: Seq<Triangle<T, C>>) -> bool;

    fn to_triangles(&self) -> (r: Vec<Triangle<T, C>>)
        requires
            self.to_triangles_req(),
        ensures
            r@.len() == self.triangle_count(),
            self.flattens_to(r@),
    ;
}

/// The vertex streams of a list of triangles, ready for a renderer: vertex
/// `3 * n + k` is vertex `k` of triangle `n`, and the indices count the
/// vertices up from zero.
pub struct MeshData<T, C> {
    pub indices: Vec<u32>,
    pub positions: Vec<T>,
    pub normals: Vec<T>,
    pub colors: Vec<C>,
}

/// What vertex stream `pick` of a list of triangles holds.
pub open spec fn vertex_stream<T, C, A>(
    triangles: Seq<Triangle<T, C>>,
    pick: spec_fn(Triangle<T, C>) -> [A; 3],
) -> Seq<A> {
    Seq::new(3 * triangles.len(), |v: int| pick(triangles[v / 3])[v % 3])
}

/// The mesh holds the vertex streams of the triangles.
pub open spec fn is_mesh_of<T, C>(mesh: MeshData<T, C>, triangles: Seq<Triangle<T, C>>) -> bool {
    &&& mesh.indices@ == Seq::new(3 * triangles.len(), |v: int| v as u32)
    &&& mesh.positions@ == vertex_stream(triangles, |t: Triangle<T, C>| t.points)
    &&& mesh.normals@ == vertex_stream(triangles, |t: Triangle<T, C>| t.normals)
    &&& mesh.colors@ == vertex_stream(triangles, |t: Triangle<T, C>| t.colors)
}

impl<T: Copy, C: Copy> Triangle<T, C> {
    /// Lays a list of triangles out as vertex streams.
    pub fn triangle_list_to_mesh(triangles: Vec<Triangle<T, C>>) -> (mesh: MeshData<T, C>)
        requires
            3 * triangles@.len() <= u32::MAX,
        ensures
            is_mesh_of(mesh, triangles@),
    {
        let mut indices = Vec::<u32>::new();
        let mut positions = Vec::<T>::new();
        let mut normals = Vec::<T>::new();
        let mut colors = Vec::<C>::new();

        let mut index: u32 = 0;
        let mut n: usize = 0;
        while n < triangles.len()
            invariant
                n <= triangles@.len(),
                3 * triangles@.len() <= u32::MAX,
                index == 3 * n,
                indices@ == Seq::new(3 * n as nat, |v: int| v as u32),
                positions@ == vertex_stream(
                    triangles@.take(n as int),
                    |t: Triangle<T, C>| t.points,
                ),
                normals@ == vertex_stream(
                    triangles@.take(n as int),
                    |t: Triangle<T, C>| t.normals,
                ),
                colors@ == vertex_stream(triangles@.take(n as int), |t: Triangle<T, C>| t.colors),
            decreases triangles@.len() - n,
        {
            let t = &triangles[n];
            let ghost before = triangles@.take(n as int);
            let ghost after = triangles@.take(n + 1);
            let mut i: usize = 0;
            while i < 3
                invariant
                    i <= 3,
                    n < triangles@.len(),
                    3 * triangles@.len() <= u32::MAX,
                    index == 3 * n + i,
                    *t == triangles@[n as int],
                    before == triangles@.take(n as int),
                    after == triangles@.take(n + 1),
                    indices@ == Seq::new((3 * n + i) as nat, |v: int| v as u32),
                    positions@ == vertex_stream(before, |t: Triangle<T, C>| t.points) + t.points@.take(
                        i as int,
                    ),
                    normals@ == vertex_stream(before, |t: Triangle<T, C>| t.normals)
                        + t.normals@.take(i as int),
                    colors@ == vertex_stream(before, |t: Triangle<T, C>| t.colors) + t.colors@.take(
                        i as int,
                    ),
                decreases 3 - i,
            {
                indices.push(index);
                positions.push(t.points[i]);
                normals.push(t.normals[i]);
                colors.push(t.colors[i]);
                proof {
                    assert(indices@ =~= Seq::new((3 * n + i + 1) as nat, |v: int| v as u32));
                    assert(t.points@.take(i + 1) =~= t.points@.take(i as int).push(t.points[i as int]));
                    assert(t.normals@.take(i + 1) =~= t.normals@.take(i as int).push(
                        t.normals[i as int],
                    ));
                    assert(t.colors@.take(i + 1) =~= t.colors@.take(i as int).push(t.colors[i as int]));
                    assert(positions@ =~= vertex_stream(before, |t: Triangle<T, C>| t.points)
                        + t.points@.take(i + 1));
                    assert(normals@ =~= vertex_stream(before, |t: Triangle<T, C>| t.normals)
                        + t.normals@.take(i + 1));
                    assert(colors@ =~= vertex_stream(before, |t: Triangle<T, C>| t.colors)
                        + t.colors@.take(i + 1));
                }
                index += 1;
                i += 1;
            }
            proof {
                assert(after.drop_last() =~= before);
                lemma_vertex_stream_grows(before, after, |t: Triangle<T, C>| t.points);
                lemma_vertex_stream_grows(before, after, |t: Triangle<T, C>| t.normals);
                lemma_vertex_stream_grows(before, after, |t: Triangle<T, C>| t.colors);
                assert(t.points@.take(3) =~= t.points@);
                assert(t.normals@.take(3) =~= t.normals@);
                assert(t.colors@.take(3) =~= t.colors@);
            }
            n += 1;
        }
        proof {
            assert(triangles@.take(triangles@.len() as int) =~= triangles@);
        }
        MeshData { indices, positions, normals, colors }
    }
}

/// One more triangle adds its three vertices to the end of a stream.
pub proof fn lemma_vertex_stream_grows<T, C, A>(
    before: Seq<Triangle<T, C>>,
    after: Seq<Triangle<T, C>>,
    pick: spec_fn(Triangle<T, C>) -> [A; 3],
)
    requires
        after.len() == before.len() + 1,
        after.drop_last() == before,
    ensures
        vertex_stream(after, pick) == vertex_stream(before, pick) + pick(after.last())@,
{
    let n = before.len() as int;
    let grown = vertex_stream(before, pick) + pick(after.last())@;
    assert forall|v: int| 0 <= v < 3 * n + 3 implies vertex_stream(after, pick)[v] == grown[v] by {
        if v < 3 * n {
            assert(after[v / 3] == before[v / 3]);
        } else {
            assert(v / 3 == n);
            assert(v % 3 == v - 3 * n);
        }
    }
    assert(vertex_stream(after, pick) =~= grown);
}

/// `Vec3` of glam, as bevy hands it on: three floating-point coordinates,
/// which the verifier does not look into.  Two vectors count as the same
/// where their coordinates are the same, all coordinates that are not a
/// number counting as one.
#[verifier::external_type_specification]
#[verifier::external_body]
pub struct ExVec3(Vec3);

/// The vector that three fields of text write: `None` where one of them is
/// no number.
pub uninterp spec fn parsed_vector(x: Seq<char>, y: Seq<char>, z: Seq<char>) -> Option<Vec3>;

/// Reads each of three fields as a number by `str::parse` of std, and makes
/// a vector of the three by `Vec3::new` of glam.  The result depends on the
/// characters of the fields alone; it is `None` where std takes one of the
/// fields for no number.
#[verifier::external_body]
pub(crate) fn vector_from_fields(x: &Vec<char>, y: &Vec<char>, z: &Vec<char>) -> (r: Option<Vec3>)
    ensures
        r == parsed_vector(x@, y@, z@),
{
    let number = |field: &Vec<char>| field.iter().collect::<String>().parse().ok();
    Some(Vec3::new(number(x)?, number(y)?, number(z)?))
}

/// The vector that a line of text writes in its first three fields: `None`
/// where the line has fewer fields, or one of the three is no number.
pub open spec fn line_vector(line: Seq<char>) -> Option<Vec3> {
    let f = fields(line);
    if f.len() >= 3 {
        parsed_vector(f[0], f[1], f[2])
    } else {
        None
    }
}

/// Reads the vector that a line writes in its first three fields.
pub fn read_vector(line: &Vec<char>) -> (r: Option<Vec3>)
    ensures
        r == line_vector(line@),
{
    let found = split_fields(line);
    if found.len() < 3 {
        return None;
    }
    proof {
        assert(views(found@)[0] == found@[0]@);
        assert(views(found@)[1] == found@[1]@);
        assert(views(found@)[2] == found@[2]@);
    }
    vector_from_fields(&found[0], &found[1], &found[2])
}

/// The vectors that the lines of a text write, line by line: `None` where
/// some line writes none.
pub open spec fn line_vectors(lines: Seq<Seq<char>>) -> Option<Seq<Vec3>>
    decreases lines.len(),
{
    if lines.len() == 0 {
        Some(Seq::empty())
    } else {
        match (line_vectors(lines.drop_last()), line_vector(lines.last())) {
            (Some(before), Some(v)) => Some(before.push(v)),
            _ => None,
        }
    }
}

/// Once some of the first lines write no vector, the lines as a whole
/// write none.
pub proof fn lemma_line_vectors_none(lines: Seq<Seq<char>>, upto: int)
    requires
        0 <= upto <= lines.len(),
        line_vectors(lines.take(upto)) is None,
    ensures
        line_vectors(lines) is None,
    decreases lines.len() - upto,
{
    if upto < lines.len() {
        assert(lines.take(upto + 1).drop_last() =~= lines.take(upto));
        lemma_line_vectors_none(lines, upto + 1);
    } else {
        assert(lines.take(upto) =~= lines);
    }
}

/// Reads the vector of every line from `from` up to `to`.
pub fn read_vectors(lines: &Vec<Vec<char>>, from: usize, to: usize) -> (r: Option<Vec<Vec3>>)
    requires
        from <= to <= lines@.len(),
    ensures
        match line_vectors(views(lines@).subrange(from as int, to as int)) {
            Some(vectors) => r is Some && r->0@ == vectors,
            None => r is None,
        },
{
    let ghost all = views(lines@).subrange(from as int, to as int);
    let mut vectors: Vec<Vec3> = Vec::new();
    let mut i: usize = from;
    while i < to
        invariant
            from <= i <= to <= lines@.len(),
            all == views(lines@).subrange(from as int, to as int),
            line_vectors(all.take(i - from)) == Some(vectors@),
        decreases to - i,
    {
        proof {
            assert(all.take(i + 1 - from).drop_last() =~= all.take(i - from));
            assert(all.take(i + 1 - from).last() == lines@[i as int]@);
        }
        match read_vector(&lines[i]) {
            Some(v) => {
                vectors.push(v);
            },
            None => {
                proof {
                    lemma_line_vectors_none(all, i + 1 - from);
                }
                return None;
            },
        }
        i += 1;
    }
    proof {
        assert(all.take(to - from) =~= all);
    }
    Some(vectors)
}

/// The difference of two vectors as glam computes it: what `Sub::sub` of
/// `Vec3` returns, which subtracts coordinate by coordinate in floating
/// point.
pub uninterp spec fn vec3_difference(a: Vec3, b: Vec3) -> Vec3;

/// The opposite of a vector as glam computes it: what `Neg::neg` of `Vec3`
/// returns, which changes the sign of every coordinate.
pub uninterp spec fn vec3_opposite(a: Vec3) -> Vec3;

/// The cross product of two vectors as glam computes it: what `Vec3::cross`
/// returns, in floating point.
pub uninterp spec fn vec3_cross_product(a: Vec3, b: Vec3) -> Vec3;

/// A vector brought to length one as glam does it: what
/// `Vec3::normalize_or_zero` returns, which is the zero vector where the
/// reciprocal of the length is not a positive finite number.
pub uninterp spec fn vec3_normalized_or_zero(a: Vec3) -> Vec3;

/// Subtracts by `Sub::sub` of `Vec3`, which glam implements: the first
/// vector less the second.  The result depends on the coordinates of the
/// two vectors alone.
#[verifier::external_body]
fn vec3_minus(a: Vec3, b: Vec3) -> (r: Vec3)
    ensures
        r == vec3_difference(a, b),
{
    a - b
}

/// Takes the opposite by `Neg::neg` of `Vec3`, which glam implements.  The
/// result depends on the coordinates of the vector alone.
#[verifier::external_body]
fn vec3_negated(a: Vec3) -> (r: Vec3)
    ensures
        r == vec3_opposite(a),
{
    -a
}

/// Calls `Vec3::cross` of glam, with the first vector as its receiver.  The
/// result depends on the coordinates of the two vectors alone.
#[verifier::external_body]
fn vec3_cross(a: Vec3, b: Vec3) -> (r: Vec3)
    ensures
        r == vec3_cross_product(a, b),
{
    Vec3::cross(a, b)
}

/// Calls `Vec3::normalize_or_zero` of glam.  The result depends on the
/// coordinates of the vector alone.
#[verifier::external_body]
fn vec3_normalize_or_zero(a: Vec3) -> (r: Vec3)
    ensures
        r == vec3_normalized_or_zero(a),
{
    Vec3::normalize_or_zero(a)
}

/// glam's `Vec3` as a vector in space: each method returns what glam's
/// operation of the same meaning computes of its operands, in their order.
impl Spatial for Vec3 {
    open spec fn obeys_spatial_spec() -> bool {
        true
    }

    open spec fn minus_spec(self, rhs: Vec3) -> Vec3 {
        vec3_difference(self, rhs)
    }

    open spec fn negated_spec(self) -> Vec3 {
        vec3_opposite(self)
    }

    open spec fn cross_spec(self, rhs: Vec3) -> Vec3 {
        vec3_cross_product(self, rhs)
    }

    open spec fn normalize_or_zero_spec(self) -> Vec3 {
        vec3_normalized_or_zero(self)
    }

    fn minus(self, rhs: Vec3) -> (r: Vec3) {
        vec3_minus(self, rhs)
    }

    fn negated(self) -> (r: Vec3) {
        vec3_negated(self)
    }

    fn cross(self, rhs: Vec3) -> (r: Vec3) {
        vec3_cross(self, rhs)
    }

    fn normalize_or_zero(self) -> (r: Vec3) {
        vec3_normalize_or_zero(self)
    }
}

/// The triangle has the given positions and colors, and the normals of its
/// own plane where the vector arithmetic is exact.
pub open spec fn is_plane_triangle<T: Spatial, C>(
    triangle: Triangle<T, C>,
    points: Seq<T>,
    colors: Seq<C>,
) -> bool {
    &&& triangle.points@ == points
    &&& triangle.colors@ == colors
    &&& measures_exactly::<T>() ==> {
        &&& triangle.normals[0] == vertex_normal(points[0], points[1], points[2])
        &&& triangle.normals[1] == vertex_normal(points[1], points[2], points[0])
        &&& triangle.normals[2] == vertex_normal(points[2], points[0], points[1])
    }
}

/// The color that a line of text writes in its fourth to sixth field:
/// `None` where the line has fewer fields, or one of the three is no number.
pub open spec fn line_color(line: Seq<char>) -> Option<Vec3> {
    let f = fields(line);
    if f.len() >= 6 {
        parsed_vector(f[3], f[4], f[5])
    } else {
        None
    }
}

/// Whether each of three lines has the six fields of a position and a
/// color.
pub open spec fn have_colors(lines: Seq<Seq<char>>) -> bool {
    forall|i: int| 0 <= i < 3 ==> (#[trigger] fields(lines[i])).len() >= 6
}

/// The positions and the colors that three lines of text give a triangle:
/// each line writes the position of a vertex in its first three fields.
/// Where every line has six fields or more, its fourth to sixth field write
/// the color of the vertex; otherwise every vertex has the default color.
/// `None` where a position or a color cannot be read.
pub open spec fn triangle_text(lines: Seq<Seq<char>>, default_color: Vec3) -> Option<
    (Seq<Vec3>, Seq<Vec3>),
> {
    let colors = if have_colors(lines) {
        colored_text(lines)
    } else {
        Some(seq![default_color, default_color, default_color])
    };
    match (colors, positioned_text(lines)) {
        (Some(c), Some(p)) => Some((p, c)),
        _ => None,
    }
}

/// The positions that three lines of text write.
pub open spec fn positioned_text(lines: Seq<Seq<char>>) -> Option<Seq<Vec3>> {
    match (line_vector(lines[0]), line_vector(lines[1]), line_vector(lines[2])) {
        (Some(first), Some(second), Some(third)) => Some(seq![first, second, third]),
        _ => None,
    }
}

/// The colors that three lines of text write.
pub open spec fn colored_text(lines: Seq<Seq<char>>) -> Option<Seq<Vec3>> {
    match (line_color(lines[0]), line_color(lines[1]), line_color(lines[2])) {
        (Some(c0), Some(c1), Some(c2)) => Some(seq![c0, c1, c2]),
        _ => None,
    }
}

/// Reads the color that a line writes in its fourth to sixth field.
pub fn read_color(line: &Vec<char>) -> (r: Option<Vec3>)
    ensures
        r == line_color(line@),
{
    let found = split_fields(line);
    if found.len() < 6 {
        return None;
    }
    proof {
        assert(views(found@)[3] == found@[3]@);
        assert(views(found@)[4] == found@[4]@);
        assert(views(found@)[5] == found@[5]@);
    }
    vector_from_fields(&found[3], &found[4], &found[5])
}

/// Reads the positions that three lines write.
fn read_positions(l0: &Vec<char>, l1: &Vec<char>, l2: &Vec<char>) -> (r: Option<[Vec3; 3]>)
    ensures
        match positioned_text(seq![l0@, l1@, l2@]) {
            Some(p) => r is Some && r->0@ == p,
            None => r is None,
        },
{
    let first = read_vector(l0)?;
    let second = read_vector(l1)?;
    let third = read_vector(l2)?;
    let positions = [first, second, third];
    proof {
        assert(positions@ =~= seq![first, second, third]);
    }
    Some(positions)
}

/// Reads the colors that three lines write.
fn read_colors(l0: &Vec<char>, l1: &Vec<char>, l2: &Vec<char>) -> (r: Option<[Vec3; 3]>)
    ensures
        match colored_text(seq![l0@, l1@, l2@]) {
            Some(c) => r is Some && r->0@ == c,
            None => r is None,
        },
{
    let c0 = read_color(l0)?;
    let c1 = read_color(l1)?;
    let c2 = read_color(l2)?;
    let colors = [c0, c1, c2];
    proof {
        assert(colors@ =~= seq![c0, c1, c2]);
    }
    Some(colors)
}

impl Triangle<Vec3, Vec3> {
    /// Reads a triangle from three lines of characters, as `from_string`
    /// reads it from three strings.
    pub fn from_lines(
        l0: &Vec<char>,
        l1: &Vec<char>,
        l2: &Vec<char>,
        default_color: Vec3,
    ) -> (r: Result<Self, String>)
        ensures
            match triangle_text(seq![l0@, l1@, l2@], default_color) {
                Some((points, colors)) => r is Ok && is_plane_triangle(r->Ok_0, points, colors),
                None => r is Err && r->Err_0@ == "missing vector element"@,
            },
    {
        let ghost text = seq![l0@, l1@, l2@];
        let has_color = split_fields(l0).len() >= 6 && split_fields(l1).len() >= 6 && split_fields(
            l2,
        ).len() >= 6;
        proof {
            assert(text[0] == l0@ && text[1] == l1@ && text[2] == l2@);
            assert(has_color == have_colors(text));
        }
        let colors = if has_color {
            match read_colors(l0, l1, l2) {
                Some(colors) => colors,
                None => {
                    return Err("missing vector element".to_owned());
                },
            }
        } else {
            let same = [default_color, default_color, default_color];
            proof {
                assert(same@ =~= seq![default_color, default_color, default_color]);
            }
            same
        };
        match read_positions(l0, l1, l2) {
            Some(positions) => Ok(Triangle::new(positions, colors)),
            None => Err("missing vector element".to_owned()),
        }
    }

    /// Reads a triangle from three lines, one for each vertex.  Where every
    /// line has six fields or more, the fourth to sixth are the color of
    /// the vertex; otherwise all three vertices get the default color.
    pub fn from_string(lines: [&String; 3], default_color: Vec3) -> (r: Result<Self, String>)
        ensures
            match triangle_text(seq![lines[0]@, lines[1]@, lines[2]@], default_color) {
                Some((points, colors)) => r is Ok && is_plane_triangle(r->Ok_0, points, colors),
                None => r is Err && r->Err_0@ == "missing vector element"@,
            },
    {
        Triangle::from_lines(
            &chars_of(lines[0].as_str()),
            &chars_of(lines[1].as_str()),
            &chars_of(lines[2].as_str()),
            default_color,
        )
    }

    /// Reads the positions of a triangle from the first three fields of
    /// three lines, and gives it the colors handed in.
    pub fn from_string_without_color(lines: [&String; 3], colors: [Vec3; 3]) -> (r: Result<
        Self,
        String,
    >)
        ensures
            match positioned_text(seq![lines[0]@, lines[1]@, lines[2]@]) {
                Some(points) => r is Ok && is_plane_triangle(r->Ok_0, points, colors@),
                None => r is Err && r->Err_0@ == "missing vector element"@,
            },
    {
        match read_positions(
            &chars_of(lines[0].as_str()),
            &chars_of(lines[1].as_str()),
            &chars_of(lines[2].as_str()),
        ) {
            Some(positions) => Ok(Triangle::new(positions, colors)),
            None => Err("missing vector element".to_owned()),
        }
    }

    /// Reads a triangle with its colors: the first three fields of each
    /// line are the position of a vertex, the next three its color.
    pub fn from_string_with_color(values: [&String; 3]) -> (r: Result<Self, String>)
        ensures
            match (
                colored_text(seq![values[0]@, values[1]@, values[2]@]),
                positioned_text(seq![values[0]@, values[1]@, values[2]@]),
            ) {
                (Some(colors), Some(points)) => r is Ok && is_plane_triangle(
                    r->Ok_0,
                    points,
                    colors,
                ),
                _ => r is Err && r->Err_0@ == "missing vector element"@,
            },
    {
        let colors = match read_colors(
            &chars_of(values[0].as_str()),
            &chars_of(values[1].as_str()),
            &chars_of(values[2].as_str()),
        ) {
            Some(colors) => colors,
            None => {
                return Err("missing vector element".to_owned());
            },
        };
        Triangle::from_string_without_color(values, colors)
    }
}

} // verus!
