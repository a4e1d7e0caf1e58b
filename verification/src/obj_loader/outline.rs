//! A mesh description that has been read, with its numbers still in writing.

use vstd::prelude::*;
use crate::beagle_math::vector::Vector2;
use crate::beagle_math::vector::Vector3;
use crate::beagle_math::vector::Vector4;
use crate::obj_loader::contents::distinct;
use crate::obj_loader::contents::indices;
use crate::obj_loader::contents::lemma_distinct;
use crate::obj_loader::contents::well_formed;
use crate::obj_loader::contents::ObjContents;
use crate::obj_loader::face::FaceVertex;
use crate::obj_loader::mesh::ObjLoaderResult;
use crate::obj_loader::mesh::Vertex;

verus! {

/// The coordinates of a `v` line as the text writes them.
#[derive(Debug, PartialEq, Eq)]
pub struct PositionLiteral {
    pub x: String,
    pub y: String,
    pub z: String,
}

impl View for PositionLiteral {
    type V = (Seq<char>, Seq<char>, Seq<char>);

    open spec fn view(&self) -> (Seq<char>, Seq<char>, Seq<char>) {
        (self.x@, self.y@, self.z@)
    }
}

/// The coordinates of a `vt` line as the text writes them.
#[derive(Debug, PartialEq, Eq)]
pub struct UvLiteral {
    pub u: String,
    pub v: String,
}

impl View for UvLiteral {
    type V = (Seq<char>, Seq<char>);

    open spec fn view(&self) -> (Seq<char>, Seq<char>) {
        (self.u@, self.v@)
    }
}

/// What each of `literals` writes.
pub open spec fn position_texts(literals: Seq<PositionLiteral>) -> Seq<
    (Seq<char>, Seq<char>, Seq<char>),
> {
    Seq::new(literals.len(), |i: int| literals[i]@)
}

/// What each of `literals` writes.
pub open spec fn uv_texts(literals: Seq<UvLiteral>) -> Seq<(Seq<char>, Seq<char>)> {
    Seq::new(literals.len(), |i: int| literals[i]@)
}

/// The vertex that stands for a face vertex `v`, given the numbers that the
/// positions and texture coordinates write. Its colour is zero.
pub open spec fn vertex_of(v: FaceVertex, positions: Seq<Vector3>, uvs: Seq<Vector2>) -> Vertex {
    Vertex {
        position: positions[v.position - 1],
        uv: uvs[v.uv - 1],
        color: Vector4::spec_zero(),
    }
}

/// The vertices that stand for `corners`, one for one.
pub open spec fn vertices_of(
    corners: Seq<FaceVertex>,
    positions: Seq<Vector3>,
    uvs: Seq<Vector2>,
) -> Seq<Vertex> {
    Seq::new(corners.len(), |j: int| vertex_of(corners[j], positions, uvs))
}

/// A mesh description after reading: the coordinates as literals, the
/// distinct face vertices in the order in which the text first names them,
/// and the index of each face vertex among these.
///
/// Its view is what the text says (`ObjContents`); the distinct vertices and
/// the indices are the deduplicated form of the face vertices of that view.
#[derive(Debug)]
pub struct ObjOutline {
    positions: Vec<PositionLiteral>,
    uvs: Vec<UvLiteral>,
    corners: Vec<FaceVertex>,
    indices: Vec<i32>,
}

impl View for ObjOutline {
    type V = ObjContents;

    closed spec fn view(&self) -> ObjContents {
        ObjContents {
            positions: position_texts(self.positions@),
            uvs: uv_texts(self.uvs@),
            face_vertices: Seq::new(
                self.indices@.len(),
                |k: int| self.corners@[self.indices@[k] as int],
            ),
        }
    }
}

impl ObjOutline {
    #[verifier::type_invariant]
    closed spec fn inv(&self) -> bool {
        &&& well_formed(self@)
        &&& self.corners@ == distinct(self@.face_vertices)
        &&& self.indices@ == indices(self@.face_vertices)
    }

    /// Puts an outline together from its parts.
    pub(crate) fn assemble(
        positions: Vec<PositionLiteral>,
        uvs: Vec<UvLiteral>,
        corners: Vec<FaceVertex>,
        indices: Vec<i32>,
        Ghost(c): Ghost<ObjContents>,
    ) -> (r: ObjOutline)
        requires
            well_formed(c),
            position_texts(positions@) == c.positions,
            uv_texts(uvs@) == c.uvs,
            corners@ == distinct(c.face_vertices),
            indices@ == crate::obj_loader::contents::indices(c.face_vertices),
        ensures
            r@ == c,
    {
        proof {
            let f = Seq::new(indices@.len(), |k: int| corners@[indices@[k] as int]);
            assert forall|k: int| 0 <= k < f.len() implies f[k] == c.face_vertices[k] by {
                crate::obj_loader::contents::lemma_index_names_vertex(c.face_vertices, k);
            }
            assert(f =~= c.face_vertices);
        }
        ObjOutline { positions, uvs, corners, indices }
    }

    /// The coordinates of the `v` lines, in the order of the text.
    pub fn positions(&self) -> (r: &Vec<PositionLiteral>)
        ensures
            position_texts(r@) == self@.positions,
    {
        &self.positions
    }

    /// The coordinates of the `vt` lines, in the order of the text.
    pub fn uvs(&self) -> (r: &Vec<UvLiteral>)
        ensures
            uv_texts(r@) == self@.uvs,
    {
        &self.uvs
    }

    /// The distinct face vertices, first seen first.
    pub fn corners(&self) -> (r: &Vec<FaceVertex>)
        ensures
            r@ == distinct(self@.face_vertices),
    {
        proof {
            use_type_invariant(self);
        }
        &self.corners
    }

    /// For each face vertex of the text, its place among the distinct ones.
    pub fn indices(&self) -> (r: &Vec<i32>)
        ensures
            r@ == crate::obj_loader::contents::indices(self@.face_vertices),
    {
        proof {
            use_type_invariant(self);
        }
        &self.indices
    }

    /// The mesh, once the caller has decoded the literals: `positions` and
    /// `uvs` hold the numbers that `self.positions()` and `self.uvs()` write,
    /// one for one. `None` exactly when one of the two has another length.
    pub fn resolve(self, positions: &Vec<Vector3>, uvs: &Vec<Vector2>) -> (r: Option<
        ObjLoaderResult,
    >)
        ensures
            r is Some <==> positions@.len() == self@.positions.len() && uvs@.len()
                == self@.uvs.len(),
            r is Some ==> {
                &&& r->0.vertices@ == vertices_of(
                    distinct(self@.face_vertices),
                    positions@,
                    uvs@,
                )
                &&& r->0.indices@ == crate::obj_loader::contents::indices(self@.face_vertices)
                &&& r->0.well_formed()
            },
    {
        proof {
            use_type_invariant(&self);
            lemma_distinct(self@.face_vertices);
        }
        if positions.len() != self.positions.len() || uvs.len() != self.uvs.len() {
            return None;
        }
        let ghost faces = self@.face_vertices;
        let mut vertices: Vec<Vertex> = Vec::new();
        let mut j: usize = 0;
        while j < self.corners.len()
            invariant
                j <= self.corners@.len(),
                self.corners@ == distinct(faces),
                well_formed(self@),
                faces == self@.face_vertices,
                positions@.len() == self@.positions.len(),
                uvs@.len() == self@.uvs.len(),
                forall|v: FaceVertex| distinct(faces).contains(v) <==> faces.contains(v),
                vertices@ == vertices_of(self.corners@.take(j as int), positions@, uvs@),
            decreases self.corners@.len() - j,
        {
            let corner: FaceVertex = self.corners[j];
            proof {
                assert(distinct(faces).contains(corner));
                assert(faces.contains(corner));
                let k = choose|k: int| 0 <= k < faces.len() && faces[k] == corner;
                assert(1 <= faces[k].position <= self@.positions.len());
                assert(1 <= faces[k].uv <= self@.uvs.len());
            }
            let vertex = Vertex {
                position: positions[(corner.position - 1) as usize],
                uv: uvs[(corner.uv - 1) as usize],
                color: Vector4::default(),
            };
            vertices.push(vertex);
            proof {
                assert(vertices@ =~= vertices_of(
                    self.corners@.take(j as int + 1),
                    positions@,
                    uvs@,
                ));
            }
            j = j + 1;
        }
        proof {
            assert(self.corners@.take(j as int) =~= self.corners@);
            assert forall|k: int| 0 <= k < self.indices@.len() implies 0
                <= #[trigger] self.indices@[k] < vertices@.len() by {
                crate::obj_loader::contents::lemma_index_names_vertex(faces, k);
            }
        }
        Some(ObjLoaderResult { vertices, indices: self.indices })
    }
}

} // verus!
