//! Physics core of a real-time 3D simulation: broad-phase spatial indexing,
//! narrow-phase collision detection, and rigid-body dynamics integration.
//!
//! All world coordinates are 64-bit integers in micrometers, so that huge
//! worlds keep full precision.  Fractional quantities (rotations, scales,
//! coefficients) are fixed-point integers scaled by one million; the `fx`
//! module defines that arithmetic and the truncation rules every contract
//! in the crate is stated over.

pub mod aabb;
pub mod collisions;
pub mod convex;
pub mod drawcmd;
pub mod fx;
pub mod inertia;
pub mod mat3;
pub mod physics_update;
pub mod rigidbody;
pub mod sas;
pub mod transform;
pub mod vec3;

pub use fx::UNITS_PER_METER;
