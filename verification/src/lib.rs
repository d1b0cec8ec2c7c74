//! A minimal ray tracer over exact fixed-point arithmetic.
//!
//! Coordinates, colors and scalars are `i64` values carrying [`num::SCALE`]
//! sub-units per whole unit, so every arithmetic step has an exact integer
//! specification: products and quotients round toward zero, and square roots
//! round down.  The library provides the vector algebra, the ray model, the
//! ray-sphere intersection test and the per-ray shading function; emitting the
//! image file is left to the caller.

pub mod num;
pub mod linalg;
pub mod geom;
