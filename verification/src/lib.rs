//! An offline ray-tracing core over fixed-point coordinates.
//!
//! Coordinates, colors and ray parameters are signed integers carrying an
//! implicit scale of `SCALE` (see `math`): a raw value `r` stands for the
//! real number `r / SCALE`. All geometric routines state exactly what they
//! compute over that representation, including every rounding step.

use vstd::prelude::*;

pub mod bound_box;
pub mod bvh;
pub mod camera;
pub mod color;
pub mod datastructures;
pub mod display;
pub mod filters;
pub mod light;
pub mod material;
pub mod math;
pub mod mesh;
pub mod obj;
pub mod plane;
pub mod point;
pub mod shape;
pub mod sphere;
pub mod triangle;
pub mod ray;
pub mod rendering;
pub mod sampler;
pub mod scene;
pub mod vector;

verus! {

/// The fixed-point scale: a raw coordinate `r` stands for `r / SCALE` world units.
pub const SCALE: i64 = 65536;

} // verus!
