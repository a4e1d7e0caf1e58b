//! The vertex references of a face.

use vstd::prelude::*;
use crate::obj_loader::error::ObjErrorKind;
use crate::obj_loader::text::characters;
use crate::obj_loader::text::fields;
use crate::obj_loader::text::index_value;
use crate::obj_loader::text::parse_index;

verus! {

/// One vertex of a face as the text names it, `position/uv/normal`: three
/// indices that count from 1. Two face vertices with the same three indices
/// are the same vertex of the mesh.
#[derive(Clone, Copy, Debug, PartialEq, Eq, Structural)]
pub struct FaceVertex {
    pub position: i32,
    pub uv: i32,
    pub normal: i32,
}

/// Whether each of `parts` writes a 32-bit decimal integer.
pub open spec fn all_indices(parts: Seq<Seq<char>>) -> bool {
    forall|i: int| 0 <= i < parts.len() ==> index_value(#[trigger] parts[i]) is Some
}

/// The face vertex that a token writes. Every component between slashes must
/// be an integer, and there must be at least three of them; the first three
/// are the position, the texture coordinate and the normal.
pub open spec fn face_vertex(token: Seq<char>) -> Result<FaceVertex, ObjErrorKind> {
    let parts = fields(token, '/');
    if !all_indices(parts) {
        Err(ObjErrorKind::InvalidFaceIndex)
    } else if parts.len() < 3 {
        Err(ObjErrorKind::MissingFaceIndex)
    } else {
        Ok(
            FaceVertex {
                position: index_value(parts[0])->0,
                uv: index_value(parts[1])->0,
                normal: index_value(parts[2])->0,
            },
        )
    }
}

/// Reads the characters of `chars` from `from` up to `to` as a face vertex.
#[verifier::loop_isolation(false)]
pub fn parse_face_vertex(chars: &Vec<char>, from: usize, to: usize) -> (r: Result<
    FaceVertex,
    ObjErrorKind,
>)
    requires
        from <= to <= chars.len(),
    ensures
        r == face_vertex(chars@.subrange(from as int, to as int)),
{
    let ghost token = chars@.subrange(from as int, to as int);
    let mut found: [i32; 3] = [0, 0, 0];
    let mut count: usize = 0;
    let mut valid: bool = true;
    let mut field_start: usize = from;
    let mut i: usize = from;
    assert(token.take(0) =~= Seq::<char>::empty());
    assert(token.subrange(0, 0) =~= Seq::<char>::empty());
    while i < to
        invariant
            from <= field_start <= i <= to,
            count <= i - from,
            fields(token.take(i - from), '/').len() == count + 1,
            fields(token.take(i - from), '/').last() == token.subrange(
                field_start - from,
                i - from,
            ),
            valid <==> forall|j: int|
                0 <= j < count ==> index_value(
                    #[trigger] fields(token.take(i - from), '/')[j],
                ) is Some,
            forall|j: int|
                0 <= j < count && j < 3 && valid ==> found[j] == index_value(
                    #[trigger] fields(token.take(i - from), '/')[j],
                )->0,
        decreases to - i,
    {
        let c: char = chars[i];
        let ghost before = fields(token.take(i - from), '/');
        let ghost longer = token.take(i - from + 1);
        assert(longer.drop_last() =~= token.take(i - from));
        assert(longer.last() == c);
        if c == '/' {
            assert(chars@.subrange(field_start as int, i as int) =~= token.subrange(
                field_start - from,
                i - from,
            ));
            let parsed = parse_index(chars, field_start, i);
            assert(fields(longer, '/') == before.push(Seq::empty()));
            assert(forall|j: int| 0 <= j <= count ==> fields(longer, '/')[j] == before[j]);
            match parsed {
                Some(value) => {
                    if count < 3 {
                        found[count] = value;
                    }
                },
                None => {
                    valid = false;
                },
            }
            count = count + 1;
            field_start = i + 1;
            assert(token.subrange(field_start - from, i - from + 1) =~= Seq::<char>::empty());
        } else {
            assert(fields(longer, '/') == before.drop_last().push(before.last().push(c)));
            assert(forall|j: int| 0 <= j < count ==> fields(longer, '/')[j] == before[j]);
            assert(token.subrange(field_start - from, i - from).push(c) =~= token.subrange(
                field_start - from,
                i - from + 1,
            ));
        }
        i = i + 1;
    }
    assert(token.take(to - from) =~= token);
    let ghost parts = fields(token, '/');
    assert(chars@.subrange(field_start as int, to as int) =~= token.subrange(
        field_start - from,
        to - from,
    ));
    let last = parse_index(chars, field_start, to);
    match last {
        Some(value) => {
            if count < 3 {
                found[count] = value;
            }
        },
        None => {
            valid = false;
        },
    }
    assert(valid <==> all_indices(parts));
    if !valid {
        Err(ObjErrorKind::InvalidFaceIndex)
    } else if count < 2 {
        Err(ObjErrorKind::MissingFaceIndex)
    } else {
        Ok(FaceVertex { position: found[0], uv: found[1], normal: found[2] })
    }
}

/// Reads a token such as `7/3/1` as a face vertex.
pub fn parse_face_element(face_element: &str) -> (r: Result<FaceVertex, ObjErrorKind>)
    ensures
        r == face_vertex(face_element@),
{
    let chars = characters(face_element);
    assert(chars@.subrange(0, chars@.len() as int) =~= chars@);
    parse_face_vertex(&chars, 0, chars.len())
}

} // verus!
