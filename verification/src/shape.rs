//! Geometric hits: the result of intersecting a ray with a shape.

use crate::point::Point;
use crate::ray::{spec_along, Ray};
use crate::vector::UnitVector;
use vstd::prelude::*;

verus! {

/// The largest ray parameter a shape will report as a hit; anything farther
/// lies outside any well-formed scene.
pub const T_MAX_HIT: i64 = 0x1_0000_0000;

/// A ray/shape hit: the parameter along the ray, the hit point, the local
/// surface coordinates (barycentric-like for triangles, zero where a shape
/// has none), and the surface normal there.
#[derive(Clone, Copy, Debug)]
pub struct Intersection {
    pub t: i64,
    pub point: Point,
    pub local_coordinates: [i64; 2],
    pub normal: UnitVector,
}

impl Intersection {
    /// A hit that a shape may legitimately report for `ray`: the parameter
    /// is a forward distance within range and the point is the ray point at
    /// that parameter.
    pub open spec fn valid_for(self, ray: Ray) -> bool {
        &&& 0 <= self.t <= T_MAX_HIT
        &&& self.point == spec_along(ray, self.t as int)
        &&& self.point.radius_vector.bounded(0x4000_0000)
        &&& self.normal.wf()
    }
}

} // verus!
