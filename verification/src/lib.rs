//! Procedural planetary-terrain core: icosphere construction and subdivision,
//! tectonic-plate partitioning and kinematics, height mapping, and nearest-face
//! ray queries.
//!
//! All geometry is carried in fixed-point coordinates (see [`fixed`]): every
//! position component is an `i64` holding millionths of a unit, so vertex
//! deduplication, plate motion and ray picking are exact integer computations
//! with explicit rounding, and every run with the same seed and parameters is
//! reproducible bit for bit.

use vstd::prelude::*;

pub mod cmdline;
pub mod collisions;
pub mod fixed;
pub mod plate_simulation;
pub mod polyhedron;
pub mod rng;
pub mod vec3;
pub mod world;

verus! {

/// The error kinds the generation core can report.
///
/// Every failure is a local, recoverable condition: the caller decides whether
/// to abort or substitute a default.
#[derive(Clone, Copy, Debug, PartialEq, Eq, Structural)]
pub enum WorldError {
    /// A parameter conflicts with the generated geometry, for example more
    /// plates requested than the simulation mesh has faces.
    ConfigurationError,
    /// A geometric query degenerated.  Reserved: the one such condition, a
    /// ray parallel to a face plane, is treated as "no intersection" by the
    /// picker's contract rather than reported as an error.
    GeometryError,
    /// A numeric operation lost its meaning, for example normalizing a
    /// zero-length vector.
    NumericDegeneracy,
}

} // verus!
