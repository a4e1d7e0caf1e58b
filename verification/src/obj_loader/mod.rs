//! Reading the text of a mesh description.

pub mod contents;
pub mod error;
pub mod face;
pub mod loader;
pub mod mesh;
pub mod number;
pub mod outline;
pub mod text;

pub use error::ObjError;
pub use error::ObjErrorKind;
pub use face::parse_face_element;
pub use face::FaceVertex;
pub use loader::load_obj;
pub use mesh::ObjLoaderResult;
pub use mesh::Vertex;
pub use outline::ObjOutline;
pub use outline::PositionLiteral;
pub use outline::UvLiteral;
