//! Reading a mesh description line by line.

use std::collections::HashMap;
use vstd::prelude::*;
use crate::obj_loader::contents::add_face;
use crate::obj_loader::contents::add_line;
use crate::obj_loader::contents::add_vertex;
use crate::obj_loader::contents::contents;
use crate::obj_loader::contents::coordinate;
use crate::obj_loader::contents::distinct;
use crate::obj_loader::contents::indices;
use crate::obj_loader::contents::lemma_add_face_error_stays;
use crate::obj_loader::contents::lemma_contents_error_stays;
use crate::obj_loader::contents::lemma_distinct;
use crate::obj_loader::contents::lemma_push_new;
use crate::obj_loader::contents::lemma_push_seen;
use crate::obj_loader::contents::no_contents;
use crate::obj_loader::contents::well_formed;
use crate::obj_loader::contents::ObjContents;
use crate::obj_loader::error::ObjError;
use crate::obj_loader::error::ObjErrorKind;
use crate::obj_loader::face::parse_face_vertex;
use crate::obj_loader::face::FaceVertex;
use crate::obj_loader::number::is_number_literal_at;
use crate::obj_loader::number::number_literal;
use crate::obj_loader::outline::position_texts;
use crate::obj_loader::outline::uv_texts;
use crate::obj_loader::outline::ObjOutline;
use crate::obj_loader::outline::PositionLiteral;
use crate::obj_loader::outline::UvLiteral;
use crate::obj_loader::text::characters;
use crate::obj_loader::text::spans_within;
use crate::obj_loader::text::texts;
use crate::obj_loader::text::token_spans;
use crate::obj_loader::text::tokens;
use crate::obj_loader::text::Span;

verus! {

broadcast use vstd::std_specs::hash::group_hash_axioms;

/// The key under which a face vertex is remembered: its three indices, each
/// moved into the range of 32 unsigned bits, side by side.
spec fn key_of(v: FaceVertex) -> u128 {
    ((v.position + 0x8000_0000) * 0x1_0000_0000_0000_0000 + (v.uv + 0x8000_0000) * 0x1_0000_0000
        + (v.normal + 0x8000_0000)) as u128
}

/// Different face vertices have different keys.
proof fn lemma_key_of_injective(a: FaceVertex, b: FaceVertex)
    requires
        key_of(a) == key_of(b),
    ensures
        a == b,
{
    let high: int = 0x1_0000_0000_0000_0000;
    let low: int = 0x1_0000_0000;
    let (pa, ta, na) = (a.position + 0x8000_0000, a.uv + 0x8000_0000, a.normal + 0x8000_0000);
    let (pb, tb, nb) = (b.position + 0x8000_0000, b.uv + 0x8000_0000, b.normal + 0x8000_0000);
    let rest_a = ta * low + na;
    let rest_b = tb * low + nb;
    assert(0 <= rest_a < high && 0 <= rest_b < high);
    assert(key_of(a) == pa * high + rest_a);
    assert(key_of(b) == pb * high + rest_b);
    if pa < pb {
        assert(pa * high + high <= pb * high);
    } else if pb < pa {
        assert(pb * high + high <= pa * high);
    } else if ta < tb {
        assert(ta * low + low <= tb * low);
    } else if tb < ta {
        assert(tb * low + low <= ta * low);
    }
}

fn key(v: FaceVertex) -> (k: u128)
    ensures
        k == key_of(v),
{
    let p: u128 = (v.position as i64 + 0x8000_0000) as u128;
    let t: u128 = (v.uv as i64 + 0x8000_0000) as u128;
    let n: u128 = (v.normal as i64 + 0x8000_0000) as u128;
    p * 0x1_0000_0000_0000_0000 + t * 0x1_0000_0000 + n
}

/// The text of each line.
pub open spec fn text_of(lines: Seq<String>) -> Seq<Seq<char>> {
    Seq::new(lines.len(), |i: int| lines[i]@)
}

/// What has been read so far, in the form in which it is handed out, with a
/// table that finds a face vertex seen before.
struct Reader {
    positions: Vec<PositionLiteral>,
    uvs: Vec<UvLiteral>,
    corners: Vec<FaceVertex>,
    indices: Vec<i32>,
    seen: HashMap<u128, usize>,
    read: Ghost<ObjContents>,
}

impl Reader {
    spec fn inv(&self) -> bool {
        &&& well_formed(self.read@)
        &&& position_texts(self.positions@) == self.read@.positions
        &&& uv_texts(self.uvs@) == self.read@.uvs
        &&& self.corners@ == distinct(self.read@.face_vertices)
        &&& self.indices@ == indices(self.read@.face_vertices)
        &&& forall|j: int|
            0 <= j < self.corners@.len() ==> self.seen@.contains_key(
                key_of(#[trigger] self.corners@[j]),
            ) && self.seen@[key_of(self.corners@[j])] == j
        &&& forall|k: u128| #[trigger]
            self.seen@.contains_key(k) ==> self.seen@[k] < self.corners@.len() && key_of(
                self.corners@[self.seen@[k] as int],
            ) == k
    }

    fn new() -> (r: Reader)
        ensures
            r.inv(),
            r.read@ == no_contents(),
    {
        let r = Reader {
            positions: Vec::new(),
            uvs: Vec::new(),
            corners: Vec::new(),
            indices: Vec::new(),
            seen: HashMap::new(),
            read: Ghost(no_contents()),
        };
        proof {
            assert(position_texts(r.positions@) =~= no_contents().positions);
            assert(uv_texts(r.uvs@) =~= no_contents().uvs);
            assert(indices(no_contents().face_vertices) =~= r.indices@);
        }
        r
    }

    fn add_position(&mut self, literal: PositionLiteral)
        requires
            old(self).inv(),
            number_literal(literal@.0),
            number_literal(literal@.1),
            number_literal(literal@.2),
        ensures
            final(self).inv(),
            final(self).read@ == (ObjContents {
                positions: old(self).read@.positions.push(literal@),
                uvs: old(self).read@.uvs,
                face_vertices: old(self).read@.face_vertices,
            }),
    {
        let ghost before = self.read@;
        let ghost literals = self.positions@;
        let ghost text = literal@;
        self.positions.push(literal);
        self.read = Ghost(
            ObjContents {
                positions: before.positions.push(text),
                uvs: before.uvs,
                face_vertices: before.face_vertices,
            },
        );
        proof {
            assert(position_texts(self.positions@) =~= position_texts(literals).push(text));
        }
    }

    fn add_uv(&mut self, literal: UvLiteral)
        requires
            old(self).inv(),
            number_literal(literal@.0),
            number_literal(literal@.1),
        ensures
            final(self).inv(),
            final(self).read@ == (ObjContents {
                positions: old(self).read@.positions,
                uvs: old(self).read@.uvs.push(literal@),
                face_vertices: old(self).read@.face_vertices,
            }),
    {
        let ghost before = self.read@;
        let ghost literals = self.uvs@;
        let ghost text = literal@;
        self.uvs.push(literal);
        self.read = Ghost(
            ObjContents {
                positions: before.positions,
                uvs: before.uvs.push(text),
                face_vertices: before.face_vertices,
            },
        );
        proof {
            assert(uv_texts(self.uvs@) =~= uv_texts(literals).push(text));
        }
    }

    fn add_vertex(&mut self, v: FaceVertex) -> (r: Result<(), ObjErrorKind>)
        requires
            old(self).inv(),
        ensures
            match add_vertex(old(self).read@, v) {
                Ok(c) => r is Ok && final(self).inv() && final(self).read@ == c,
                Err(kind) => r == Err::<(), ObjErrorKind>(kind),
            },
    {
        let ghost before = self.read@;
        let ghost faces = before.face_vertices;
        if v.position < 1 || v.position as usize > self.positions.len() {
            return Err(ObjErrorKind::PositionOutOfRange);
        }
        if v.uv < 1 || v.uv as usize > self.uvs.len() {
            return Err(ObjErrorKind::UvOutOfRange);
        }
        proof {
            lemma_distinct(faces);
        }
        let k = key(v);
        let ghost after = ObjContents {
            positions: before.positions,
            uvs: before.uvs,
            face_vertices: faces.push(v),
        };
        match self.seen.get(&k) {
            Some(index) => {
                let j: usize = *index;
                proof {
                    lemma_key_of_injective(self.corners@[j as int], v);
                    lemma_push_seen(faces, v, j as int);
                    assert(distinct(faces).contains(v));
                    assert(faces.contains(v));
                }
                self.indices.push(j as i32);
                self.read = Ghost(after);
                Ok(())
            },
            None => {
                proof {
                    if faces.contains(v) {
                        assert(distinct(faces).contains(v));
                        let j = choose|j: int|
                            0 <= j < distinct(faces).len() && distinct(faces)[j] == v;
                        assert(self.seen@.contains_key(key_of(self.corners@[j])));
                    }
                }
                if self.corners.len() >= 0x8000_0000 {
                    return Err(ObjErrorKind::TooManyVertices);
                }
                let j: usize = self.corners.len();
                proof {
                    lemma_push_new(faces, v);
                }
                let ghost old_corners = self.corners@;
                let ghost old_seen = self.seen@;
                self.corners.push(v);
                self.seen.insert(k, j);
                self.indices.push(j as i32);
                self.read = Ghost(after);
                proof {
                    assert forall|i: int| 0 <= i < self.corners@.len() implies self.seen@.contains_key(
                        key_of(#[trigger] self.corners@[i]),
                    ) && self.seen@[key_of(self.corners@[i])] == i by {
                        if i < old_corners.len() {
                            assert(self.corners@[i] == old_corners[i]);
                            assert(old_seen.contains_key(key_of(old_corners[i])));
                            if key_of(old_corners[i]) == k {
                                lemma_key_of_injective(old_corners[i], v);
                            }
                        }
                    }
                    assert forall|q: u128| #[trigger] self.seen@.contains_key(q) implies self.seen@[q]
                        < self.corners@.len() && key_of(self.corners@[self.seen@[q] as int])
                        == q by {
                        if q != k {
                            assert(old_seen.contains_key(q));
                            assert(self.corners@[old_seen[q] as int] == old_corners[old_seen[q] as int]);
                        }
                    }
                }
                Ok(())
            },
        }
    }

    fn finish(self) -> (r: ObjOutline)
        requires
            self.inv(),
        ensures
            r@ == self.read@,
    {
        ObjOutline::assemble(self.positions, self.uvs, self.corners, self.indices, self.read)
    }
}

/// The characters of `line` that `span` covers.
fn literal(line: &str, span: Span) -> (r: String)
    requires
        span.start <= span.end <= line@.len(),
    ensures
        r@ == line@.subrange(span.start as int, span.end as int),
{
    line.substring_char(span.start, span.end).to_owned()
}

/// Reads the vertices of a face: the tokens after the first.
#[verifier::loop_isolation(false)]
fn read_face(reader: &mut Reader, chars: &Vec<char>, spans: &Vec<Span>) -> (r: Result<
    (),
    ObjErrorKind,
>)
    requires
        old(reader).inv(),
        spans@.len() >= 1,
        spans_within(spans@, chars@.len() as int),
    ensures
        match add_face(old(reader).read@, texts(chars@, spans@).skip(1)) {
            Ok(c) => r is Ok && final(reader).inv() && final(reader).read@ == c,
            Err(kind) => r == Err::<(), ObjErrorKind>(kind),
        },
{
    let ghost elements = texts(chars@, spans@).skip(1);
    let ghost start = reader.read@;
    let mut k: usize = 1;
    assert(elements.take(0) =~= Seq::<Seq<char>>::empty());
    while k < spans.len()
        invariant
            1 <= k <= spans@.len(),
            spans_within(spans@, chars@.len() as int),
            elements == texts(chars@, spans@).skip(1),
            reader.inv(),
            add_face(start, elements.take(k - 1)) == Ok::<ObjContents, ObjErrorKind>(reader.read@),
        decreases spans@.len() - k,
    {
        let span: Span = spans[k];
        let parsed = parse_face_vertex(chars, span.start, span.end);
        proof {
            assert(elements.take(k as int).drop_last() =~= elements.take(k - 1));
            assert(elements.take(k as int).last() == chars@.subrange(
                span.start as int,
                span.end as int,
            ));
        }
        match parsed {
            Err(kind) => {
                proof {
                    lemma_add_face_error_stays(start, elements, k as int);
                }
                return Err(kind);
            },
            Ok(v) => {
                match reader.add_vertex(v) {
                    Err(kind) => {
                        proof {
                            lemma_add_face_error_stays(start, elements, k as int);
                        }
                        return Err(kind);
                    },
                    Ok(()) => {},
                }
            },
        }
        k = k + 1;
    }
    assert(elements.take(spans@.len() - 1) =~= elements);
    Ok(())
}

/// Checks one coordinate of a line: token `place`.
fn check_coordinate(chars: &Vec<char>, spans: &Vec<Span>, place: usize, invalid: ObjErrorKind) -> (r:
    Result<(), ObjErrorKind>)
    requires
        spans_within(spans@, chars@.len() as int),
    ensures
        r == coordinate(texts(chars@, spans@), place as int, invalid),
{
    if spans.len() <= place {
        return Err(ObjErrorKind::MissingCoordinate);
    }
    let span: Span = spans[place];
    assert(texts(chars@, spans@)[place as int] == chars@.subrange(
        span.start as int,
        span.end as int,
    ));
    if !is_number_literal_at(chars, span.start, span.end) {
        return Err(invalid);
    }
    Ok(())
}

/// Reads one line.
fn read_line(reader: &mut Reader, line: &str) -> (r: Result<(), ObjErrorKind>)
    requires
        old(reader).inv(),
    ensures
        match add_line(old(reader).read@, line@) {
            Ok(c) => r is Ok && final(reader).inv() && final(reader).read@ == c,
            Err(kind) => r == Err::<(), ObjErrorKind>(kind),
        },
{
    let chars = characters(line);
    let spans = token_spans(&chars);
    let ghost t = tokens(line@);
    if spans.len() == 0 {
        return Ok(());
    }
    let first: Span = spans[0];
    let length: usize = first.end - first.start;
    let is_v: bool = length == 1 && chars[first.start] == 'v';
    let is_vt: bool = length == 2 && chars[first.start] == 'v' && chars[first.start + 1] == 't';
    let is_f: bool = length == 1 && chars[first.start] == 'f';
    proof {
        assert(t[0] == chars@.subrange(first.start as int, first.end as int));
        assert(t[0].len() == length);
        assert(t[0][0] == chars@[first.start as int]);
        if length >= 2 {
            assert(t[0][1] == chars@[first.start as int + 1]);
        }
        assert(is_v <==> t[0] =~= seq!['v']) by {
            if is_v {
                assert(t[0] =~= seq!['v']);
            }
            if t[0] =~= seq!['v'] {
                assert(t[0][0] == 'v');
            }
        }
        assert(is_vt <==> t[0] =~= seq!['v', 't']) by {
            if is_vt {
                assert(t[0] =~= seq!['v', 't']);
            }
            if t[0] =~= seq!['v', 't'] {
                assert(t[0][0] == 'v');
                assert(t[0][1] == 't');
            }
        }
        assert(is_f <==> t[0] =~= seq!['f']) by {
            if is_f {
                assert(t[0] =~= seq!['f']);
            }
            if t[0] =~= seq!['f'] {
                assert(t[0][0] == 'f');
            }
        }
    }
    if is_v {
        match check_coordinate(&chars, &spans, 1, ObjErrorKind::InvalidPositionCoordinate) {
            Err(kind) => {
                return Err(kind);
            },
            Ok(_) => {},
        }
        match check_coordinate(&chars, &spans, 2, ObjErrorKind::InvalidPositionCoordinate) {
            Err(kind) => {
                return Err(kind);
            },
            Ok(_) => {},
        }
        match check_coordinate(&chars, &spans, 3, ObjErrorKind::InvalidPositionCoordinate) {
            Err(kind) => {
                return Err(kind);
            },
            Ok(_) => {},
        }
        let x = literal(line, spans[1]);
        let y = literal(line, spans[2]);
        let z = literal(line, spans[3]);
        proof {
            assert(t[1] == x@ && t[2] == y@ && t[3] == z@);
        }
        reader.add_position(PositionLiteral { x, y, z });
        Ok(())
    } else if is_vt {
        match check_coordinate(&chars, &spans, 1, ObjErrorKind::InvalidUCoordinate) {
            Err(kind) => {
                return Err(kind);
            },
            Ok(_) => {},
        }
        match check_coordinate(&chars, &spans, 2, ObjErrorKind::InvalidVCoordinate) {
            Err(kind) => {
                return Err(kind);
            },
            Ok(_) => {},
        }
        let u = literal(line, spans[1]);
        let v = literal(line, spans[2]);
        proof {
            assert(t[1] == u@ && t[2] == v@);
        }
        reader.add_uv(UvLiteral { u, v });
        Ok(())
    } else if is_f {
        read_face(reader, &chars, &spans)
    } else {
        Ok(())
    }
}

/// Reads a mesh description, given as its lines, into an outline.
///
/// The result is decided by `contents`: the outline of what the text says, or
/// the first error of the text. Nothing is handed out for a text with an
/// error.
#[verifier::loop_isolation(false)]
pub fn load_obj(lines: &Vec<String>) -> (r: Result<ObjOutline, ObjError>)
    ensures
        match contents(text_of(lines@)) {
            Ok(c) => r is Ok && r->Ok_0@ == c,
            Err(e) => r is Err && r->Err_0 == e,
        },
{
    let ghost text = text_of(lines@);
    let mut reader = Reader::new();
    let mut i: usize = 0;
    assert(text.take(0) =~= Seq::<Seq<char>>::empty());
    while i < lines.len()
        invariant
            i <= lines@.len(),
            text == text_of(lines@),
            reader.inv(),
            contents(text.take(i as int)) == Ok::<ObjContents, ObjError>(reader.read@),
        decreases lines@.len() - i,
    {
        proof {
            assert(text.take(i as int + 1).drop_last() =~= text.take(i as int));
            assert(text.take(i as int + 1).last() == lines@[i as int]@);
        }
        match read_line(&mut reader, lines[i].as_str()) {
            Err(kind) => {
                proof {
                    lemma_contents_error_stays(text, i as int + 1);
                }
                return Err(ObjError { line: i, kind });
            },
            Ok(()) => {},
        }
        i = i + 1;
    }
    assert(text.take(lines@.len() as int) =~= text);
    Ok(reader.finish())
}

} // verus!
