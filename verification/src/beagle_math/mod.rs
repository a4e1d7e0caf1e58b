//! Vectors of two, three and four components and a row-major 4x4 matrix.

pub mod matrix;
pub mod scalar;
pub mod vector;

pub use matrix::Mat4;
pub use scalar::Scalar;
pub use vector::Vector2;
pub use vector::Vector3;
pub use vector::Vector4;
