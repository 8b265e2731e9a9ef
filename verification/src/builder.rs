//! Reading a scene: lines of text are sorted by the kind of object they
//! belong to, the objects are built from them, the patches are refined, and
//! everything is flattened into vertex streams.
use vstd::prelude::*;
use bevy::math::Vec3;
use vstd::arithmetic::power::{lemma_pow0, pow};
use core::ops::{Add, Div, Mul, Sub};
use crate::bezier::laws::lemma_patches_flatten_to_twice;
use crate::bezier::rectangle::{BezierRectangle, can_quarter, Patch, patch_lines};
use crate::model::views;
use crate::subdivision::{passes_needed, refines_to, REFINEMENT_BUDGET, Subdivide, SubdivisionSet};
use crate::text::{chars_of, fields, index_of, is_word, read_index, split_fields};
use crate::triangle::{
    is_mesh_of,
    is_plane_triangle,
    MeshData,
    ToTriangle,
    Triangle,
    triangle_text,
};

verus! {

/// The kinds of object that a scene file can hold.
#[derive(Debug, Clone, Copy)]
pub enum OffType {
    Unknown,
    Off,
    Rect11,
    Rect22,
    Rect33,
    Rect44,
}

/// What a line of a scene file is: the header of a kind of object, or
/// values of the kind that the last header named.
#[derive(Debug, Clone, Copy)]
pub enum LineType {
    Header(OffType),
    Values,
}

/// The number of a kind of object, from 0 to 5.
pub open spec fn offtype_number(offtype: OffType) -> nat {
    match offtype {
        OffType::Unknown => 0,
        OffType::Off => 1,
        OffType::Rect11 => 2,
        OffType::Rect22 => 3,
        OffType::Rect33 => 4,
        OffType::Rect44 => 5,
    }
}

/// The number of a kind of object, from 0 to 5.
pub fn offtype_id(offtype: &OffType) -> (r: usize)
    ensures
        r == offtype_number(*offtype),
{
    match offtype {
        OffType::Unknown => 0,
        OffType::Off => 1,
        OffType::Rect11 => 2,
        OffType::Rect22 => 3,
        OffType::Rect33 => 4,
        OffType::Rect44 => 5,
    }
}

/// How many lines one object of a kind takes: for a patch, one for each
/// control point and four for the corner colors.
pub open spec fn lines_per_object(offtype: OffType) -> nat {
    match offtype {
        OffType::Unknown => 0,
        OffType::Off => 1,
        OffType::Rect11 => 2 * 2 + 4,
        OffType::Rect22 => 3 * 3 + 4,
        OffType::Rect33 => 4 * 4 + 4,
        OffType::Rect44 => 5 * 5 + 4,
    }
}

/// How many lines one object of a kind takes.
pub fn line_length(offtype: OffType) -> (r: usize)
    ensures
        r == lines_per_object(offtype),
{
    match offtype {
        OffType::Unknown => 0,
        OffType::Off => 1,
        OffType::Rect11 => 2 * 2 + 4,
        OffType::Rect22 => 3 * 3 + 4,
        OffType::Rect33 => 4 * 4 + 4,
        OffType::Rect44 => 5 * 5 + 4,
    }
}

/// What a line is: one of the headers, written exactly so, or values.
pub open spec fn line_type(line: Seq<char>) -> LineType {
    if line == "OFF"@ || line == "COFF"@ {
        LineType::Header(OffType::Off)
    } else if line == "CBEZ113"@ {
        LineType::Header(OffType::Rect11)
    } else if line == "CBEZ223"@ {
        LineType::Header(OffType::Rect22)
    } else if line == "CBEZ333"@ {
        LineType::Header(OffType::Rect33)
    } else if line == "CBEZ443"@ {
        LineType::Header(OffType::Rect44)
    } else {
        LineType::Values
    }
}

/// Whether a line is a header, and of which kind.
pub fn match_line_type(line: &String) -> (r: LineType)
    ensures
        r == line_type(line@),
{
    let chars = chars_of(line.as_str());
    if is_word(&chars, "OFF") || is_word(&chars, "COFF") {
        LineType::Header(OffType::Off)
    } else if is_word(&chars, "CBEZ113") {
        LineType::Header(OffType::Rect11)
    } else if is_word(&chars, "CBEZ223") {
        LineType::Header(OffType::Rect22)
    } else if is_word(&chars, "CBEZ333") {
        LineType::Header(OffType::Rect33)
    } else if is_word(&chars, "CBEZ443") {
        LineType::Header(OffType::Rect44)
    } else {
        LineType::Values
    }
}

/// Six empty buckets, and no header read yet.
pub open spec fn nothing_sorted() -> (Seq<Seq<Seq<char>>>, OffType) {
    (Seq::new(6, |k: int| Seq::empty()), OffType::Unknown)
}

/// Taking one more line: an empty line changes nothing, a header changes
/// the kind of the lines to come, and any other line goes to the bucket of
/// the kind that the last header named.
pub open spec fn sort_line(sorted: (Seq<Seq<Seq<char>>>, OffType), line: Seq<char>) -> (
    Seq<Seq<Seq<char>>>,
    OffType,
) {
    let (buckets, current) = sorted;
    if line.len() == 0 {
        sorted
    } else {
        match line_type(line) {
            LineType::Header(named) => (buckets, named),
            LineType::Values => (
                buckets.update(
                    offtype_number(current) as int,
                    buckets[offtype_number(current) as int].push(line),
                ),
                current,
            ),
        }
    }
}

/// Sorting the lines of a scene, from a given start: the value lines of
/// each kind of object, in six buckets by the number of the kind, and the
/// kind that the last header named.  Values before any header fall to the
/// unknown kind.
pub open spec fn sort_lines(start: (Seq<Seq<Seq<char>>>, OffType), lines: Seq<Seq<char>>) -> (
    Seq<Seq<Seq<char>>>,
    OffType,
)
    decreases lines.len(),
{
    if lines.len() == 0 {
        start
    } else {
        sort_line(sort_lines(start, lines.drop_last()), lines.last())
    }
}

/// The patches that the first `objects` runs of `count + 4` lines write,
/// without those that cannot be read.
pub open spec fn patches_in(rows: Seq<Seq<char>>, count: nat, objects: nat) -> Seq<
    Patch<Vec3, Vec3>,
>
    decreases objects,
{
    if objects == 0 {
        Seq::empty()
    } else {
        let before = patches_in(rows, count, (objects - 1) as nat);
        let per = count + 4;
        match patch_lines(rows.subrange((objects - 1) * per, (objects * per) as int), count) {
            Ok(patch) => before.push(patch),
            Err(_) => before,
        }
    }
}

/// The patches of degree `n` by `m` that a bucket of lines writes: every
/// full run of lines is one patch, unless it cannot be read.
pub open spec fn patches_of_degree(rows: Seq<Seq<char>>, n: nat, m: nat) -> Seq<Patch<Vec3, Vec3>> {
    let count = (n + 1) * (m + 1);
    patches_in(rows, count, rows.len() / (count + 4))
}

/// The three lines that a face names: the face is written as a 3 and three
/// indices into the lines behind the header.  `None` for a line that is
/// written otherwise, or names a line that is not there.
pub open spec fn face_text(rest: Seq<Seq<char>>, face: Seq<char>) -> Option<Seq<Seq<char>>> {
    let f = fields(face);
    if f.len() == 4 && f[0] == "3"@ {
        match (index_of(f[1]), index_of(f[2]), index_of(f[3])) {
            (Some(a), Some(b), Some(c)) => if a < rest.len() && b < rest.len() && c < rest.len() {
                Some(seq![rest[a as int], rest[b as int], rest[c as int]])
            } else {
                None
            },
            _ => None,
        }
    } else {
        None
    }
}

/// The positions and colors of the triangle that a face line writes.
pub open spec fn face_triangle(rest: Seq<Seq<char>>, face: Seq<char>, default_color: Vec3) -> Option<
    (Seq<Vec3>, Seq<Vec3>),
> {
    match face_text(rest, face) {
        Some(text) => triangle_text(text, default_color),
        None => None,
    }
}

/// The triangles that the lines from `first` up to `upto` write as faces,
/// without those that cannot be read.
pub open spec fn faces_in(rest: Seq<Seq<char>>, default_color: Vec3, first: nat, upto: nat) -> Seq<
    (Seq<Vec3>, Seq<Vec3>),
>
    decreases upto,
{
    if upto <= first {
        Seq::empty()
    } else {
        let before = faces_in(rest, default_color, first, (upto - 1) as nat);
        match face_triangle(rest, rest[upto - 1], default_color) {
            Some(triangle) => before.push(triangle),
            None => before,
        }
    }
}

/// The triangles of the lines that follow the header `OFF`: the first line
/// starts with the number of vertices, as many lines behind it are skipped,
/// and the lines from there on are faces.  A face names its vertices by the
/// index of their line, counted from the line behind the first.
pub open spec fn off_triangles(bucket: Seq<Seq<char>>, default_color: Vec3) -> Seq<
    (Seq<Vec3>, Seq<Vec3>),
> {
    if bucket.len() == 0 || fields(bucket[0]).len() == 0 {
        Seq::empty()
    } else {
        let rest = bucket.skip(1);
        match index_of(fields(bucket[0])[0]) {
            Some(vertices) => if vertices <= rest.len() {
                faces_in(rest, default_color, vertices as nat, rest.len())
            } else {
                Seq::empty()
            },
            None => Seq::empty(),
        }
    }
}

/// The triangles have, one by one, the positions and colors listed, and
/// the normals of their planes.
pub open spec fn are_plane_triangles(
    triangles: Seq<Triangle<Vec3, Vec3>>,
    listed: Seq<(Seq<Vec3>, Seq<Vec3>)>,
) -> bool {
    &&& triangles.len() == listed.len()
    &&& forall|i: int|
        0 <= i < triangles.len() ==> is_plane_triangle(
            #[trigger] triangles[i],
            listed[i].0,
            listed[i].1,
        )
}

/// Reads the patches that runs of lines write, leaving out the runs that
/// cannot be read and the lines behind the last full run.
pub fn build_patches<const N: usize, const M: usize>(rows: &Vec<Vec<char>>) -> (r: Vec<
    BezierRectangle<Vec3, Vec3, N, M>,
>)
    requires
        (N + 1) * (M + 1) + 4 <= usize::MAX,
    ensures
        views(r@) == patches_of_degree(views(rows@), N as nat, M as nat),
{
    assert(N + 1 <= usize::MAX && M + 1 <= usize::MAX) by (nonlinear_arith)
        requires
            (N + 1) * (M + 1) + 4 <= usize::MAX,
            N >= 0,
            M >= 0,
    ;
    let per: usize = (N + 1) * (M + 1) + 4;
    let ghost count = ((N + 1) * (M + 1)) as nat;
    let mut patches: Vec<BezierRectangle<Vec3, Vec3, N, M>> = Vec::new();
    let mut from: usize = 0;
    let ghost mut objects: nat = 0;
    proof {
        assert(0 * per == 0);
    }
    while rows.len() - from >= per
        invariant
            per == count + 4,
            count == (N + 1) * (M + 1),
            per <= usize::MAX,
            from == objects * per,
            from <= rows@.len(),
            views(patches@) == patches_in(views(rows@), count, objects),
        decreases rows@.len() - from,
    {
        proof {
            assert((objects + 1) * per == objects * per + per) by (nonlinear_arith);
        }
        let ghost before = views(patches@);
        match BezierRectangle::<Vec3, Vec3, N, M>::from_lines(rows, from, from + per) {
            Ok(patch) => {
                patches.push(patch);
                proof {
                    assert(views(patches@) =~= before.push(patch@));
                }
            },
            Err(_) => {},
        }
        from += per;
        proof {
            objects = objects + 1;
        }
    }
    proof {
        vstd::arithmetic::div_mod::lemma_fundamental_div_mod_converse(
            rows@.len() as int,
            per as int,
            objects as int,
            rows@.len() - from,
        );
    }
    patches
}

/// Reads the indices of a face and finds the lines that they name.
fn find_face(bucket: &Vec<Vec<char>>, face: &Vec<char>) -> (r: Option<(usize, usize, usize)>)
    requires
        bucket@.len() >= 1,
    ensures
        match face_text(views(bucket@).skip(1), face@) {
            Some(text) => r is Some && {
                let (a, b, c) = r->0;
                &&& 1 <= a < bucket@.len()
                &&& 1 <= b < bucket@.len()
                &&& 1 <= c < bucket@.len()
                &&& text == seq![bucket@[a as int]@, bucket@[b as int]@, bucket@[c as int]@]
            },
            None => r is None,
        },
{
    let found = split_fields(face);
    proof {
        assert forall|k: int| 0 <= k < found@.len() implies #[trigger] views(found@)[k]
            == found@[k]@ by {}
    }
    if found.len() != 4 || !is_word(&found[0], "3") {
        return None;
    }
    let a = read_index(&found[1])?;
    let b = read_index(&found[2])?;
    let c = read_index(&found[3])?;
    let behind = bucket.len() - 1;
    if a < behind && b < behind && c < behind {
        Some((a + 1, b + 1, c + 1))
    } else {
        None
    }
}

/// Reads the triangles of the lines that follow the header `OFF`.
pub fn build_triangles(bucket: &Vec<Vec<char>>, default_color: Vec3) -> (r: Vec<
    Triangle<Vec3, Vec3>,
>)
    ensures
        are_plane_triangles(r@, off_triangles(views(bucket@), default_color)),
{
    let mut triangles: Vec<Triangle<Vec3, Vec3>> = Vec::new();
    if bucket.len() == 0 {
        return triangles;
    }
    let header = split_fields(&bucket[0]);
    if header.len() == 0 {
        return triangles;
    }
    proof {
        assert(views(header@)[0] == header@[0]@);
    }
    let num_vertices = match read_index(&header[0]) {
        Some(n) => n,
        None => {
            return triangles;
        },
    };
    let behind = bucket.len() - 1;
    if num_vertices > behind {
        return triangles;
    }
    let ghost rest = views(bucket@).skip(1);
    let mut at: usize = num_vertices;
    while at < behind
        invariant
            num_vertices <= at <= behind,
            behind == bucket@.len() - 1,
            rest == views(bucket@).skip(1),
                are_plane_triangles(
                triangles@,
                faces_in(rest, default_color, num_vertices as nat, at as nat),
            ),
        decreases behind - at,
    {
        let ghost listed = faces_in(rest, default_color, num_vertices as nat, at as nat);
        let ghost before = triangles@;
        proof {
            assert(rest[at as int] == bucket@[at + 1]@);
        }
        match find_face(bucket, &bucket[at + 1]) {
            Some((a, b, c)) => {
                match Triangle::from_lines(&bucket[a], &bucket[b], &bucket[c], default_color) {
                    Ok(triangle) => {
                        triangles.push(triangle);
                        proof {
                            let added = face_triangle(rest, rest[at as int], default_color)->0;
                            assert(triangles@ == before.push(triangle));
                            assert forall|i: int| 0 <= i < triangles@.len() implies is_plane_triangle(
                                #[trigger] triangles@[i],
                                listed.push(added)[i].0,
                                listed.push(added)[i].1,
                            ) by {
                                if i < before.len() {
                                    assert(triangles@[i] == before[i]);
                                }
                            }
                        }
                    },
                    Err(_) => {},
                }
            },
            None => {},
        }
        at += 1;
    }
    triangles
}

/// Collects the objects of a scene from its lines and turns them into
/// meshes.
pub struct MeshBuilder {
    strings: Vec<Vec<Vec<char>>>,
    current: OffType,
    triangles: Vec<Triangle<Vec3, Vec3>>,
    rect11: Vec<BezierRectangle<Vec3, Vec3, 1, 1>>,
    rect22: Vec<BezierRectangle<Vec3, Vec3, 2, 2>>,
    rect33: Vec<BezierRectangle<Vec3, Vec3, 3, 3>>,
    rect44: Vec<BezierRectangle<Vec3, Vec3, 4, 4>>,
    default_color: Vec3,
}

impl MeshBuilder {
    #[verifier::type_invariant]
    spec fn well_formed(self) -> bool {
        self.strings@.len() == 6
    }

    /// The value lines taken so far, in six buckets by the number of their
    /// kind.
    pub closed spec fn buckets(&self) -> Seq<Seq<Seq<char>>> {
        Seq::new(6, |k: int| views(self.strings@[k]@))
    }

    /// The kind that the last header named.
    pub closed spec fn current(&self) -> OffType {
        self.current
    }

    /// The color of triangles that come without one.
    pub closed spec fn default_color(&self) -> Vec3 {
        self.default_color
    }

    /// A builder that has taken no line yet.
    pub fn new(default_color: Vec3) -> (r: Self)
        ensures
            (r.buckets(), r.current()) == nothing_sorted(),
            r.default_color() == default_color,
    {
        let strings: Vec<Vec<Vec<char>>> = vec![
            Vec::new(),
            Vec::new(),
            Vec::new(),
            Vec::new(),
            Vec::new(),
            Vec::new(),
        ];
        let r = MeshBuilder {
            strings,
            current: OffType::Unknown,
            triangles: Vec::new(),
            rect11: Vec::new(),
            rect22: Vec::new(),
            rect33: Vec::new(),
            rect44: Vec::new(),
            default_color,
        };
        proof {
            assert(r.buckets() =~= Seq::new(6, |k: int| Seq::<Seq<char>>::empty())) by {
                assert forall|k: int| 0 <= k < 6 implies #[trigger] r.buckets()[k] == Seq::<
                    Seq<char>,
                >::empty() by {
                    assert(views(r.strings@[k]@) =~= Seq::<Seq<char>>::empty());
                }
            }
        }
        r
    }

    /// Takes the next line of a scene: a header changes the kind of the
    /// lines to come, any other line that is not empty is kept as values
    /// of the kind that the last header named.
    pub fn take_line(&mut self, line: &String)
        ensures
            final(self).default_color() == old(self).default_color(),
            (final(self).buckets(), final(self).current()) == sort_line(
                (old(self).buckets(), old(self).current()),
                line@,
            ),
    {
        proof {
            use_type_invariant(&*self);
        }
        let chars = chars_of(line.as_str());
        if chars.len() == 0 {
            return ;
        }
        match match_line_type(line) {
            LineType::Values => {
                let id = offtype_id(&self.current);
                let ghost before = self.buckets();
                let ghost held = self.strings@;
                self.strings[id].push(chars);
                proof {
                    assert(self.strings@.len() == 6);
                    assert forall|k: int| 0 <= k < 6 implies #[trigger] self.buckets()[k]
                        == before.update(id as int, before[id as int].push(line@))[k] by {
                        if k == id {
                            assert(views(self.strings@[k]@) =~= views(held[k]@).push(line@));
                        } else {
                            assert(self.strings@[k] == held[k]);
                        }
                    }
                    assert(self.buckets() =~= before.update(
                        id as int,
                        before[id as int].push(line@),
                    ));
                }
            },
            LineType::Header(offtype) => {
                self.current = offtype;
            },
        }
    }
}

/// How many patches `n` patches become when they are refined as a set: an
/// empty set stays empty, any other is quartered until the budget is met.
pub open spec fn refined_count(n: nat) -> nat {
    if n == 0 {
        0
    } else {
        (n * pow(4, passes_needed(n, REFINEMENT_BUDGET as nat, 4))) as nat
    }
}

/// The mesh holds the triangles of the patches, refined as a set and then
/// flattened: there are leaves that refinement has made of the patches (of
/// no patches, none), and two triangles for each leaf that cover its
/// corners, and the mesh holds the vertex streams of these triangles.
pub open spec fn is_refined_mesh<S, const N: usize, const M: usize>(
    patches: Seq<Patch<Vec3, Vec3>>,
    mesh: MeshData<Vec3, Vec3>,
) -> bool where
    S: Copy + From<u8> + Sub<Output = S> + Div<Output = S>,
    Vec3: Add<Output = Vec3> + Mul<S, Output = Vec3>,
 {
    exists|
        given: Seq<BezierRectangle<Vec3, Vec3, N, M>>,
        leaves: SubdivisionSet<BezierRectangle<Vec3, Vec3, N, M>>,
        triangles: Seq<Triangle<Vec3, Vec3>>,
    |
        #![trigger views(given), ToTriangle::<Vec3, Vec3>::flattens_to(&leaves, triangles)]
        {
            &&& views(given) == patches
            &&& if given.len() == 0 {
                leaves.elements@.len() == 0
            } else {
                refines_to::<S, BezierRectangle<Vec3, Vec3, N, M>>(
                    given,
                    leaves.elements@,
                    REFINEMENT_BUDGET as nat,
                )
            }
            &&& triangles.len() == 2 * leaves.elements@.len()
            &&& ToTriangle::<Vec3, Vec3>::flattens_to(&leaves, triangles)
            &&& is_mesh_of(mesh, triangles)
        }
}

/// Refines a set of patches, flattens it and lays the triangles out as
/// vertex streams.  A mesh can index no more vertices than 32 bits count.
pub fn patch_mesh<S, const N: usize, const M: usize>(
    patches: Vec<BezierRectangle<Vec3, Vec3, N, M>>,
) -> (r: Result<MeshData<Vec3, Vec3>, String>) where
    S: Copy + From<u8> + Sub<Output = S> + Div<Output = S>,
    Vec3: Add<Output = Vec3> + Mul<S, Output = Vec3>,

    requires
        N >= 1,
        M >= 1,
        can_quarter::<S, Vec3, Vec3>(),
    ensures
        match r {
            Ok(mesh) => 6 * refined_count(patches@.len()) <= u32::MAX && is_refined_mesh::<S, N, M>(
                views(patches@),
                mesh,
            ),
            Err(message) => 6 * refined_count(patches@.len()) > u32::MAX && message@
                == "too many triangles"@,
        },
{
    let ghost given = patches@;
    let mut subdiv = SubdivisionSet::new();
    subdiv.elements = patches;
    proof {
        lemma_pow0(4);
    }
    if subdiv.elements.len() > 0 {
        subdiv.subdivide::<S>();
    }
    let triangles = subdiv.to_triangles();
    proof {
        lemma_patches_flatten_to_twice(subdiv.elements@, subdiv.elements@.len());
    }
    if triangles.len() > (u32::MAX / 3) as usize {
        return Err("too many triangles".to_owned());
    }
    let ghost listed = triangles@;
    let mesh = Triangle::triangle_list_to_mesh(triangles);
    proof {
        assert(views(given) == views(given));
        assert(ToTriangle::<Vec3, Vec3>::flattens_to(&subdiv, listed));
        assert(<BezierRectangle<Vec3, Vec3, N, M> as Subdivide<S>>::fanout() == 4);
    }
    Ok(mesh)
}

/// Whether a scene has more triangles of some kind than a mesh can index.
pub open spec fn scene_too_large(buckets: Seq<Seq<Seq<char>>>, default_color: Vec3) -> bool {
    ||| 3 * off_triangles(buckets[1], default_color).len() > u32::MAX
    ||| 6 * refined_count(patches_of_degree(buckets[2], 1, 1).len()) > u32::MAX
    ||| 6 * refined_count(patches_of_degree(buckets[3], 2, 2).len()) > u32::MAX
    ||| 6 * refined_count(patches_of_degree(buckets[4], 3, 3).len()) > u32::MAX
    ||| 6 * refined_count(patches_of_degree(buckets[5], 4, 4).len()) > u32::MAX
}

/// The meshes of a scene, given its sorted lines: one for the triangles,
/// and one for the patches of each degree from one to four.
pub open spec fn is_scene<S>(
    buckets: Seq<Seq<Seq<char>>>,
    default_color: Vec3,
    meshes: Seq<MeshData<Vec3, Vec3>>,
) -> bool where
    S: Copy + From<u8> + Sub<Output = S> + Div<Output = S>,
    Vec3: Add<Output = Vec3> + Mul<S, Output = Vec3>,
 {
    &&& meshes.len() == 5
    &&& exists|triangles: Seq<Triangle<Vec3, Vec3>>|
        are_plane_triangles(triangles, off_triangles(buckets[1], default_color)) && #[trigger] is_mesh_of(
            meshes[0],
            triangles,
        )
    &&& is_refined_mesh::<S, 1, 1>(patches_of_degree(buckets[2], 1, 1), meshes[1])
    &&& is_refined_mesh::<S, 2, 2>(patches_of_degree(buckets[3], 2, 2), meshes[2])
    &&& is_refined_mesh::<S, 3, 3>(patches_of_degree(buckets[4], 3, 3), meshes[3])
    &&& is_refined_mesh::<S, 4, 4>(patches_of_degree(buckets[5], 4, 4), meshes[4])
}

impl MeshBuilder {
    /// Builds the objects of every kind from the lines taken.
    fn build_objects(&mut self)
        ensures
            final(self).buckets() == old(self).buckets(),
            final(self).default_color() == old(self).default_color(),
            final(self).built(),
    {
        proof {
            use_type_invariant(&*self);
        }
        self.triangles = build_triangles(&self.strings[1], self.default_color);
        self.rect11 = build_patches::<1, 1>(&self.strings[2]);
        self.rect22 = build_patches::<2, 2>(&self.strings[3]);
        self.rect33 = build_patches::<3, 3>(&self.strings[4]);
        self.rect44 = build_patches::<4, 4>(&self.strings[5]);
    }

    /// The objects held are those that the lines taken write.
    closed spec fn built(&self) -> bool {
        let buckets = self.buckets();
        &&& are_plane_triangles(self.triangles@, off_triangles(buckets[1], self.default_color))
        &&& views(self.rect11@) == patches_of_degree(buckets[2], 1, 1)
        &&& views(self.rect22@) == patches_of_degree(buckets[3], 2, 2)
        &&& views(self.rect33@) == patches_of_degree(buckets[4], 3, 3)
        &&& views(self.rect44@) == patches_of_degree(buckets[5], 4, 4)
    }

    /// Turns the objects into meshes: the triangles as they are, the
    /// patches of each degree refined and flattened.
    fn build_meshes<S>(self) -> (r: Result<Vec<MeshData<Vec3, Vec3>>, String>) where
        S: Copy + From<u8> + Sub<Output = S> + Div<Output = S>,
        Vec3: Add<Output = Vec3> + Mul<S, Output = Vec3>,

        requires
            self.built(),
            can_quarter::<S, Vec3, Vec3>(),
        ensures
            match r {
                Ok(meshes) => !scene_too_large(self.buckets(), self.default_color()) && is_scene::<S>(
                    self.buckets(),
                    self.default_color(),
                    meshes@,
                ),
                Err(message) => scene_too_large(self.buckets(), self.default_color()) && message@
                    == "too many triangles"@,
            },
    {
        let ghost buckets = self.buckets();
        let ghost listed = self.triangles@;
        let MeshBuilder { strings, current, triangles, rect11, rect22, rect33, rect44, default_color } =
            self;
        if triangles.len() > (u32::MAX / 3) as usize {
            return Err("too many triangles".to_owned());
        }
        let mesh0 = Triangle::triangle_list_to_mesh(triangles);
        let mesh1 = patch_mesh::<S, 1, 1>(rect11)?;
        let mesh2 = patch_mesh::<S, 2, 2>(rect22)?;
        let mesh3 = patch_mesh::<S, 3, 3>(rect33)?;
        let mesh4 = patch_mesh::<S, 4, 4>(rect44)?;
        let meshes = vec![mesh0, mesh1, mesh2, mesh3, mesh4];
        proof {
            assert(is_mesh_of(meshes@[0], listed));
        }
        Ok(meshes)
    }

    /// Takes the lines of a scene, builds its objects and turns them into
    /// meshes: one for the triangles, and one for the patches of each
    /// degree from one to four.
    pub fn parse_lines<S>(self, lines: &Vec<String>) -> (r: Result<
        Vec<MeshData<Vec3, Vec3>>,
        String,
    >) where
        S: Copy + From<u8> + Sub<Output = S> + Div<Output = S>,
        Vec3: Add<Output = Vec3> + Mul<S, Output = Vec3>,

        requires
            can_quarter::<S, Vec3, Vec3>(),
        ensures
            ({
                let buckets = sort_lines((self.buckets(), self.current()), views(lines@)).0;
                match r {
                    Ok(meshes) => !scene_too_large(buckets, self.default_color()) && is_scene::<S>(
                        buckets,
                        self.default_color(),
                        meshes@,
                    ),
                    Err(message) => scene_too_large(buckets, self.default_color()) && message@
                        == "too many triangles"@,
                }
            }),
    {
        let ghost start = (self.buckets(), self.current());
        let ghost default_color = self.default_color();
        let mut builder = self;
        let mut i: usize = 0;
        while i < lines.len()
            invariant
                i <= lines@.len(),
                builder.default_color() == default_color,
                (builder.buckets(), builder.current()) == sort_lines(
                    start,
                    views(lines@).take(i as int),
                ),
            decreases lines@.len() - i,
        {
            proof {
                assert(views(lines@).take(i + 1).drop_last() =~= views(lines@).take(i as int));
                assert(views(lines@).take(i + 1).last() == lines@[i as int]@);
            }
            builder.take_line(&lines[i]);
            i += 1;
        }
        proof {
            assert(views(lines@).take(lines@.len() as int) =~= views(lines@));
        }
        builder.build_objects();
        builder.build_meshes::<S>()
    }
}

} // verus!
