//! A verified data model and decoder for fixed-width molecular structure
//! files in the Gromacs `.gro` layout.
//!
//! The crate parses a structure file (title line, atom count line, one
//! fixed-column record per atom, one box-vector line) into a [`structure::Structure`]
//! and offers geometric queries over the atom collection: the unweighted
//! centroid, the z extents, and an in-place centering transform.
//!
//! Coordinates are kept as exact fixed-point values: an `i64` number of
//! micro-nanometers (one millionth of a nanometer), so every geometric
//! result is stated and proved exactly, with no rounding model.

pub mod scan;
pub mod structure;
pub mod decode;

pub use decode::{AtomField, DecodeError, POS_LIMIT};
pub use scan::MICRO;
pub use structure::{Atom, BoxVectors, Name, Structure, Vec3Fixed};
