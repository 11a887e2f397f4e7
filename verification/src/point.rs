//! Positions in space, kept as radius vectors from the origin.

use crate::vector::{spec_diff, spec_direction, UnitVector, Vector};
use vstd::prelude::*;

verus! {

#[derive(Clone, Copy, PartialEq, Eq, Structural, Debug)]
pub struct Point {
    pub radius_vector: Vector,
}

impl Point {
    /// Well-formed world point: coordinates within `MAX_COORD`.
    pub open spec fn wf(self) -> bool {
        self.radius_vector.wf()
    }

    /// The coordinate along `axis` (0 = x, 1 = y, 2 = z).
    pub open spec fn spec_coord(self, axis: int) -> int {
        if axis == 0 {
            self.radius_vector.x as int
        } else if axis == 1 {
            self.radius_vector.y as int
        } else {
            self.radius_vector.z as int
        }
    }

    pub fn new(x: i64, y: i64, z: i64) -> (r: Point)
        ensures
            r.radius_vector == (Vector { x, y, z }),
    {
        Point { radius_vector: Vector { x, y, z } }
    }

    pub fn x(&self) -> (r: i64)
        ensures
            r == self.radius_vector.x,
    {
        self.radius_vector.x
    }

    pub fn y(&self) -> (r: i64)
        ensures
            r == self.radius_vector.y,
    {
        self.radius_vector.y
    }

    pub fn z(&self) -> (r: i64)
        ensures
            r == self.radius_vector.z,
    {
        self.radius_vector.z
    }

    /// The coordinate along `axis`.
    pub fn coord(&self, axis: usize) -> (r: i64)
        requires
            axis < 3,
        ensures
            r == self.spec_coord(axis as int),
    {
        if axis == 0 {
            self.radius_vector.x
        } else if axis == 1 {
            self.radius_vector.y
        } else {
            self.radius_vector.z
        }
    }

    /// The vector from `self` to `rhs` reversed: `self - rhs`.
    pub fn sub(self, rhs: Point) -> (r: Vector)
        requires
            self.radius_vector.bounded(0x2000_0000_0000_0000),
            rhs.radius_vector.bounded(0x2000_0000_0000_0000),
        ensures
            r == spec_diff(self.radius_vector, rhs.radius_vector),
    {
        self.radius_vector.sub(rhs.radius_vector)
    }

    /// Translates the point by a vector.
    pub fn add(self, rhs: Vector) -> (r: Point)
        requires
            self.radius_vector.bounded(0x2000_0000_0000_0000),
            rhs.bounded(0x2000_0000_0000_0000),
        ensures
            r.radius_vector == crate::vector::spec_add(self.radius_vector, rhs),
    {
        Point { radius_vector: self.radius_vector.add(rhs) }
    }

    /// The normalized direction from `self` toward `target`.
    pub fn direction_to(self, target: Point) -> (r: UnitVector)
        requires
            self.radius_vector.bounded(0x4000_0000),
            target.radius_vector.bounded(0x4000_0000),
            spec_diff(target.radius_vector, self.radius_vector).bounded(0x4100_0000),
            self != target,
        ensures
            r.direction == spec_direction(spec_diff(target.radius_vector, self.radius_vector)),
            r.wf(),
    {
        target.sub(self).direction()
    }
}

} // verus!
