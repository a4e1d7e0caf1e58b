//! Geometry support for a small real-time renderer.
//!
//! [`beagle_math`] holds vectors and row-major 4x4 matrices whose entries are
//! single-precision numbers carried by their IEEE 754 encoding, so that every
//! layout and reordering is stated and proved bit for bit. [`obj_loader`] reads
//! the text of a mesh description into an indexed, deduplicated vertex list.
//!
//! Nothing here rounds: the arithmetic on numbers (products, square roots,
//! trigonometry, decoding a decimal literal) belongs to the caller, who hands
//! the results in as [`beagle_math::Scalar`] values.

pub mod beagle_math;
pub mod obj_loader;
