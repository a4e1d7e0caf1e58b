//! What the text of a mesh description says, and when it says nothing.

use vstd::prelude::*;
use crate::obj_loader::error::ObjError;
use crate::obj_loader::error::ObjErrorKind;
use crate::obj_loader::face::face_vertex;
use crate::obj_loader::face::FaceVertex;
use crate::obj_loader::number::number_literal;
use crate::obj_loader::text::tokens;

verus! {

/// What a mesh description holds, read line by line.
pub struct ObjContents {
    /// The three coordinates of each `v` line, as they are written.
    pub positions: Seq<(Seq<char>, Seq<char>, Seq<char>)>,
    /// The two coordinates of each `vt` line, as they are written.
    pub uvs: Seq<(Seq<char>, Seq<char>)>,
    /// Every vertex of every face, in the order of the text.
    pub face_vertices: Seq<FaceVertex>,
}

/// The vertices of `s` without repetition, each where it first occurs.
pub open spec fn distinct(s: Seq<FaceVertex>) -> Seq<FaceVertex>
    decreases s.len(),
{
    if s.len() == 0 {
        Seq::empty()
    } else {
        let before = distinct(s.drop_last());
        if before.contains(s.last()) {
            before
        } else {
            before.push(s.last())
        }
    }
}

/// For each vertex of `s`, where it stands in `distinct(s)`.
pub open spec fn indices(s: Seq<FaceVertex>) -> Seq<i32> {
    Seq::new(s.len(), |k: int| distinct(s).index_of(s[k]) as i32)
}

/// The contents of a text without lines.
pub open spec fn no_contents() -> ObjContents {
    ObjContents { positions: Seq::empty(), uvs: Seq::empty(), face_vertices: Seq::empty() }
}

/// Whether every coordinate is a decimal literal, every face vertex names a
/// position and a texture coordinate that exist, and the distinct vertices
/// can be numbered by 32-bit indices.
pub open spec fn well_formed(c: ObjContents) -> bool {
    &&& forall|k: int|
        0 <= k < c.positions.len() ==> number_literal((#[trigger] c.positions[k]).0)
            && number_literal(c.positions[k].1) && number_literal(c.positions[k].2)
    &&& forall|k: int|
        0 <= k < c.uvs.len() ==> number_literal((#[trigger] c.uvs[k]).0) && number_literal(
            c.uvs[k].1,
        )
    &&& forall|k: int|
        0 <= k < c.face_vertices.len() ==> 1 <= (#[trigger] c.face_vertices[k]).position
            <= c.positions.len()
    &&& forall|k: int|
        0 <= k < c.face_vertices.len() ==> 1 <= (#[trigger] c.face_vertices[k]).uv
            <= c.uvs.len()
    &&& distinct(c.face_vertices).len() <= 0x8000_0000
}

/// The contents after one more face vertex. The vertex must name a position
/// and a texture coordinate that earlier lines gave; a vertex not seen before
/// must leave room for its index.
pub open spec fn add_vertex(c: ObjContents, v: FaceVertex) -> Result<ObjContents, ObjErrorKind> {
    if !(1 <= v.position <= c.positions.len()) {
        Err(ObjErrorKind::PositionOutOfRange)
    } else if !(1 <= v.uv <= c.uvs.len()) {
        Err(ObjErrorKind::UvOutOfRange)
    } else if !c.face_vertices.contains(v) && distinct(c.face_vertices).len() >= 0x8000_0000 {
        Err(ObjErrorKind::TooManyVertices)
    } else {
        Ok(
            ObjContents {
                positions: c.positions,
                uvs: c.uvs,
                face_vertices: c.face_vertices.push(v),
            },
        )
    }
}

/// The contents after the vertices of one face, which `elements` writes from
/// left to right. The first element that is wrong decides the error.
pub open spec fn add_face(c: ObjContents, elements: Seq<Seq<char>>) -> Result<
    ObjContents,
    ObjErrorKind,
>
    decreases elements.len(),
{
    if elements.len() == 0 {
        Ok(c)
    } else {
        match add_face(c, elements.drop_last()) {
            Err(kind) => Err(kind),
            Ok(before) => match face_vertex(elements.last()) {
                Err(kind) => Err(kind),
                Ok(v) => add_vertex(before, v),
            },
        }
    }
}

/// Whether token `place` of the tokens `t` of a line is a coordinate: it must
/// be there, and it must be a decimal literal, else the error is `invalid`.
pub open spec fn coordinate(t: Seq<Seq<char>>, place: int, invalid: ObjErrorKind) -> Result<
    (),
    ObjErrorKind,
> {
    if t.len() <= place {
        Err(ObjErrorKind::MissingCoordinate)
    } else if !number_literal(t[place]) {
        Err(invalid)
    } else {
        Ok(())
    }
}

/// Whether the tokens `t` of a `v` line hold three coordinates after the
/// keyword. The first that is missing or is no decimal literal decides the
/// error.
pub open spec fn position_coordinates(t: Seq<Seq<char>>) -> Result<(), ObjErrorKind> {
    if coordinate(t, 1, ObjErrorKind::InvalidPositionCoordinate) is Err {
        coordinate(t, 1, ObjErrorKind::InvalidPositionCoordinate)
    } else if coordinate(t, 2, ObjErrorKind::InvalidPositionCoordinate) is Err {
        coordinate(t, 2, ObjErrorKind::InvalidPositionCoordinate)
    } else {
        coordinate(t, 3, ObjErrorKind::InvalidPositionCoordinate)
    }
}

/// Whether the tokens `t` of a `vt` line hold two coordinates after the
/// keyword. The first that is missing or is no decimal literal decides the
/// error.
pub open spec fn uv_coordinates(t: Seq<Seq<char>>) -> Result<(), ObjErrorKind> {
    if coordinate(t, 1, ObjErrorKind::InvalidUCoordinate) is Err {
        coordinate(t, 1, ObjErrorKind::InvalidUCoordinate)
    } else {
        coordinate(t, 2, ObjErrorKind::InvalidVCoordinate)
    }
}

/// The contents after one more line. The first token decides: `v` gives a
/// position of three coordinates, `vt` a texture coordinate of two, `f` a
/// face. A line with any other first token changes nothing, and so does a
/// line without tokens. Tokens after the coordinates are not read.
pub open spec fn add_line(c: ObjContents, line: Seq<char>) -> Result<ObjContents, ObjErrorKind> {
    let t = tokens(line);
    if t.len() == 0 {
        Ok(c)
    } else if t[0] == seq!['v'] {
        match position_coordinates(t) {
            Err(kind) => Err(kind),
            Ok(_) => Ok(
                ObjContents {
                    positions: c.positions.push((t[1], t[2], t[3])),
                    uvs: c.uvs,
                    face_vertices: c.face_vertices,
                },
            ),
        }
    } else if t[0] == seq!['v', 't'] {
        match uv_coordinates(t) {
            Err(kind) => Err(kind),
            Ok(_) => Ok(
                ObjContents {
                    positions: c.positions,
                    uvs: c.uvs.push((t[1], t[2])),
                    face_vertices: c.face_vertices,
                },
            ),
        }
    } else if t[0] == seq!['f'] {
        add_face(c, t.skip(1))
    } else {
        Ok(c)
    }
}

/// The contents of a text, or its first error: the line that is wrong,
/// counted from zero, and what is wrong with it.
pub open spec fn contents(lines: Seq<Seq<char>>) -> Result<ObjContents, ObjError>
    decreases lines.len(),
{
    if lines.len() == 0 {
        Ok(no_contents())
    } else {
        match contents(lines.drop_last()) {
            Err(e) => Err(e),
            Ok(before) => match add_line(before, lines.last()) {
                Err(kind) => Err(ObjError { line: (lines.len() - 1) as usize, kind }),
                Ok(after) => Ok(after),
            },
        }
    }
}

/// `distinct(s)` holds exactly the vertices of `s`, each once, and is no
/// longer than `s`.
pub proof fn lemma_distinct(s: Seq<FaceVertex>)
    ensures
        distinct(s).no_duplicates(),
        distinct(s).len() <= s.len(),
        forall|v: FaceVertex| distinct(s).contains(v) <==> s.contains(v),
    decreases s.len(),
{
    if s.len() > 0 {
        let init = s.drop_last();
        lemma_distinct(init);
        let d = distinct(init);
        assert forall|v: FaceVertex| distinct(s).contains(v) <==> s.contains(v) by {
            if s.contains(v) {
                let k = choose|k: int| 0 <= k < s.len() && s[k] == v;
                if k < s.len() - 1 {
                    assert(init[k] == v);
                    assert(init.contains(v));
                    assert(d.contains(v));
                    let j = choose|j: int| 0 <= j < d.len() && d[j] == v;
                    assert(distinct(s)[j] == v);
                } else {
                    if d.contains(v) {
                    } else {
                        assert(distinct(s)[d.len() as int] == v);
                    }
                }
            }
            if distinct(s).contains(v) {
                let j = choose|j: int| 0 <= j < distinct(s).len() && distinct(s)[j] == v;
                if j < d.len() {
                    assert(d[j] == v);
                    assert(d.contains(v));
                    assert(init.contains(v));
                    let k = choose|k: int| 0 <= k < init.len() && init[k] == v;
                    assert(s[k] == v);
                } else {
                    assert(s[s.len() - 1] == v);
                }
            }
        }
    }
}

/// In a sequence without repetition a value stands at one place only.
pub proof fn lemma_index_of_unique(d: Seq<FaceVertex>, i: int)
    requires
        d.no_duplicates(),
        0 <= i < d.len(),
    ensures
        d.index_of(d[i]) == i,
{
    assert(d.contains(d[i]));
}

/// The index of a face vertex names that vertex: it is in range, and the
/// distinct vertex at that place is the vertex itself.
pub proof fn lemma_index_names_vertex(s: Seq<FaceVertex>, k: int)
    requires
        0 <= k < s.len(),
    ensures
        0 <= distinct(s).index_of(s[k]) < distinct(s).len(),
        distinct(s)[distinct(s).index_of(s[k])] == s[k],
{
    lemma_distinct(s);
    assert(s.contains(s[k]));
}

/// Two face vertices share an index exactly when they are the same vertex, as
/// long as the indices fit 32 bits.
pub proof fn lemma_same_index_same_vertex(s: Seq<FaceVertex>, j: int, k: int)
    requires
        0 <= j < s.len(),
        0 <= k < s.len(),
        distinct(s).len() <= 0x8000_0000,
    ensures
        indices(s)[j] == indices(s)[k] <==> s[j] == s[k],
{
    lemma_index_names_vertex(s, j);
    lemma_index_names_vertex(s, k);
}

/// Reading on never renumbers: the distinct vertices of a prefix are a prefix
/// of the distinct vertices of the whole.
pub proof fn lemma_distinct_prefix(s: Seq<FaceVertex>, k: int)
    requires
        0 <= k <= s.len(),
    ensures
        distinct(s.take(k)).len() <= distinct(s).len(),
        distinct(s).take(distinct(s.take(k)).len() as int) == distinct(s.take(k)),
    decreases s.len() - k,
{
    if k == s.len() {
        assert(s.take(k) =~= s);
        assert(distinct(s).take(distinct(s).len() as int) =~= distinct(s));
    } else {
        lemma_distinct_prefix(s, k + 1);
        let longer = s.take(k + 1);
        assert(longer.drop_last() =~= s.take(k));
        let n = distinct(s.take(k)).len() as int;
        assert(distinct(longer).take(n) =~= distinct(s.take(k)));
        assert(distinct(s).take(n) =~= distinct(s).take(distinct(longer).len() as int).take(n));
    }
}

/// First seen, first numbered: a vertex that occurs at `k` for the first time
/// gets as its index the number of distinct vertices before it.
pub proof fn lemma_first_seen_order(s: Seq<FaceVertex>, k: int)
    requires
        0 <= k < s.len(),
        !s.take(k).contains(s[k]),
    ensures
        distinct(s).index_of(s[k]) == distinct(s.take(k)).len(),
{
    let longer = s.take(k + 1);
    assert(longer.drop_last() =~= s.take(k));
    lemma_distinct(s.take(k));
    let n = distinct(s.take(k)).len() as int;
    assert(distinct(longer) == distinct(s.take(k)).push(s[k]));
    lemma_distinct_prefix(s, k + 1);
    assert(distinct(s).take(n + 1)[n] == s[k]);
    lemma_distinct(s);
    lemma_index_of_unique(distinct(s), n);
}

/// A vertex seen before adds no distinct vertex and gets the index it had.
pub proof fn lemma_push_seen(s: Seq<FaceVertex>, v: FaceVertex, j: int)
    requires
        0 <= j < distinct(s).len() <= 0x8000_0000,
        distinct(s)[j] == v,
    ensures
        distinct(s.push(v)) == distinct(s),
        indices(s.push(v)) == indices(s).push(j as i32),
{
    let longer = s.push(v);
    assert(longer.drop_last() =~= s);
    assert(distinct(s).contains(v));
    lemma_distinct(s);
    lemma_index_of_unique(distinct(s), j);
    assert(indices(longer) =~= indices(s).push(j as i32));
}

/// A vertex not seen before becomes the last distinct vertex, and the indices
/// given so far stay.
pub proof fn lemma_push_new(s: Seq<FaceVertex>, v: FaceVertex)
    requires
        !s.contains(v),
        distinct(s).len() < 0x8000_0000,
    ensures
        distinct(s.push(v)) == distinct(s).push(v),
        indices(s.push(v)) == indices(s).push(distinct(s).len() as i32),
{
    let longer = s.push(v);
    let d = distinct(s);
    assert(longer.drop_last() =~= s);
    lemma_distinct(s);
    lemma_distinct(longer);
    assert(!d.contains(v));
    assert(distinct(longer) == d.push(v));
    assert forall|k: int| 0 <= k < longer.len() implies indices(longer)[k] == indices(s).push(
        d.len() as i32,
    )[k] by {
        if k < s.len() {
            lemma_index_names_vertex(s, k);
            let at = d.index_of(s[k]);
            assert(d.push(v)[at] == s[k]);
            lemma_index_of_unique(d.push(v), at);
        } else {
            assert(d.push(v)[d.len() as int] == v);
            lemma_index_of_unique(d.push(v), d.len() as int);
        }
    }
    assert(indices(longer) =~= indices(s).push(d.len() as i32));
}

/// Adding a face vertex keeps the contents well formed and leaves the
/// positions and texture coordinates as they are.
pub proof fn lemma_add_vertex_well_formed(c: ObjContents, v: FaceVertex)
    requires
        well_formed(c),
        add_vertex(c, v) is Ok,
    ensures
        well_formed(add_vertex(c, v)->Ok_0),
        add_vertex(c, v)->Ok_0.positions == c.positions,
        add_vertex(c, v)->Ok_0.uvs == c.uvs,
{
    let after = add_vertex(c, v)->Ok_0;
    assert(after.face_vertices.drop_last() =~= c.face_vertices);
    lemma_distinct(c.face_vertices);
}

/// Adding a face keeps the contents well formed and leaves the positions and
/// texture coordinates as they are.
pub proof fn lemma_add_face_well_formed(c: ObjContents, elements: Seq<Seq<char>>)
    requires
        well_formed(c),
        add_face(c, elements) is Ok,
    ensures
        well_formed(add_face(c, elements)->Ok_0),
        add_face(c, elements)->Ok_0.positions == c.positions,
        add_face(c, elements)->Ok_0.uvs == c.uvs,
    decreases elements.len(),
{
    if elements.len() > 0 {
        lemma_add_face_well_formed(c, elements.drop_last());
        let before = add_face(c, elements.drop_last())->Ok_0;
        lemma_add_vertex_well_formed(before, face_vertex(elements.last())->Ok_0);
    }
}

/// Adding a line keeps the contents well formed.
pub proof fn lemma_add_line_well_formed(c: ObjContents, line: Seq<char>)
    requires
        well_formed(c),
        add_line(c, line) is Ok,
    ensures
        well_formed(add_line(c, line)->Ok_0),
{
    let t = tokens(line);
    if t.len() == 0 {
    } else if t[0] == seq!['v'] {
    } else if t[0] == seq!['v', 't'] {
    } else if t[0] == seq!['f'] {
        lemma_add_face_well_formed(c, t.skip(1));
    }
}

/// Every text that is accepted has well-formed contents: each face vertex
/// names a position and a texture coordinate that the text gives, and the
/// distinct vertices can be numbered by 32-bit indices.
pub proof fn lemma_contents_well_formed(lines: Seq<Seq<char>>)
    requires
        contents(lines) is Ok,
    ensures
        well_formed(contents(lines)->Ok_0),
    decreases lines.len(),
{
    if lines.len() > 0 {
        lemma_contents_well_formed(lines.drop_last());
        lemma_add_line_well_formed(contents(lines.drop_last())->Ok_0, lines.last());
    }
}

/// A face that is wrong up to some element is wrong as a whole, in the same
/// way.
pub proof fn lemma_add_face_error_stays(c: ObjContents, elements: Seq<Seq<char>>, k: int)
    requires
        0 <= k <= elements.len(),
        add_face(c, elements.take(k)) is Err,
    ensures
        add_face(c, elements) == add_face(c, elements.take(k)),
    decreases elements.len() - k,
{
    if k < elements.len() {
        assert(elements.take(k + 1).drop_last() =~= elements.take(k));
        lemma_add_face_error_stays(c, elements, k + 1);
    } else {
        assert(elements.take(k) =~= elements);
    }
}

/// A text that is wrong up to some line is wrong as a whole, with the same
/// error.
pub proof fn lemma_contents_error_stays(lines: Seq<Seq<char>>, k: int)
    requires
        0 <= k <= lines.len(),
        contents(lines.take(k)) is Err,
    ensures
        contents(lines) == contents(lines.take(k)),
    decreases lines.len() - k,
{
    if k < lines.len() {
        assert(lines.take(k + 1).drop_last() =~= lines.take(k));
        lemma_contents_error_stays(lines, k + 1);
    } else {
        assert(lines.take(k) =~= lines);
    }
}

} // verus!
