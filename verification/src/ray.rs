//! Rays: an origin plus a normalized direction, with the parametrized
//! `along` operation and the round-trip law for `from_to`.

use crate::math::{abs_i, div_t, is_sqrt, lemma_div_t_bounds, lemma_sqrt_exists, sqrt_i};
use crate::point::Point;
use crate::vector::{
    lemma_direction_bounds, lemma_norm2_pos, lemma_norm2_range, spec_add, spec_diff,
    spec_direction, spec_scale, UnitVector,
};
use crate::SCALE;
use vstd::prelude::*;

verus! {

#[derive(Clone, Copy, PartialEq, Eq, Structural, Debug)]
pub struct Ray {
    pub origin: Point,
    pub direction: UnitVector,
}

/// The ray from `from` through `to`.
pub open spec fn spec_from_to(from: Point, to: Point) -> Ray {
    Ray {
        origin: from,
        direction: UnitVector {
            direction: spec_direction(spec_diff(to.radius_vector, from.radius_vector)),
        },
    }
}

/// The point at parameter `t` along the ray: each coordinate moves by
/// `div_t(direction * t, SCALE)`.
pub open spec fn spec_along(r: Ray, t: int) -> Point {
    Point { radius_vector: spec_add(r.origin.radius_vector, spec_scale(r.direction.direction, t)) }
}

impl Ray {
    /// Direction coordinates are bounded by `SCALE`.
    pub open spec fn wf(self) -> bool {
        self.direction.wf()
    }

    pub fn from_to(from: Point, to: Point) -> (r: Ray)
        requires
            from.radius_vector.bounded(0x4000_0000),
            to.radius_vector.bounded(0x4000_0000),
            spec_diff(to.radius_vector, from.radius_vector).bounded(0x4100_0000),
            from != to,
        ensures
            r == spec_from_to(from, to),
            r.wf(),
    {
        Ray { origin: from, direction: from.direction_to(to) }
    }

    /// The point at parameter `t` (raw units) along the ray.
    pub fn along(&self, t: i64) -> (r: Point)
        requires
            self.wf(),
            self.origin.radius_vector.bounded(0x1000_0000_0000_0000),
            -0x40_0000_0000 <= t <= 0x40_0000_0000,
        ensures
            r == spec_along(*self, t as int),
            self.origin.wf() && -0x1_0000_0000 <= t <= 0x1_0000_0000 ==> r.radius_vector.bounded(
                0x1_1000_0000,
            ),
    {
        self.origin.add(self.direction.scale(t))
    }
}

/// The round-trip law: casting a ray from `from` toward `to` and walking the
/// distance between them lands within `(length + 2 * SCALE) / SCALE` raw
/// units of `to` on every coordinate.
pub proof fn lemma_from_to_round_trip(from: Point, to: Point)
    requires
        from.radius_vector.bounded(0x2000_0000),
        to.radius_vector.bounded(0x2000_0000),
        from != to,
    ensures
        ({
            let d = spec_diff(to.radius_vector, from.radius_vector);
            let len = sqrt_i(d.norm2());
            let p = spec_along(spec_from_to(from, to), len);
            &&& abs_i(p.spec_coord(0) - to.spec_coord(0)) * (SCALE as int) <= len + SCALE
            &&& abs_i(p.spec_coord(1) - to.spec_coord(1)) * (SCALE as int) <= len + SCALE
            &&& abs_i(p.spec_coord(2) - to.spec_coord(2)) * (SCALE as int) <= len + SCALE
        }),
{
    let d = spec_diff(to.radius_vector, from.radius_vector);
    let len = sqrt_i(d.norm2());
    lemma_norm2_range(d);
    lemma_norm2_pos(d);
    lemma_sqrt_exists(d.norm2());
    assert(len >= 1) by (nonlinear_arith)
        requires
            is_sqrt(d.norm2(), len),
            d.norm2() >= 1,
    ;
    assert(len <= 0x8000_0000) by (nonlinear_arith)
        requires
            is_sqrt(d.norm2(), len),
            d.norm2() < 0x4000_0000_0000_0000,
    ;
    lemma_direction_bounds(d, len);
    lemma_round_trip_component(d.x as int, len);
    lemma_round_trip_component(d.y as int, len);
    lemma_round_trip_component(d.z as int, len);
}

/// One coordinate of the round trip: scaling by `SCALE / len` and back by
/// `len / SCALE` moves the value by at most `(len + SCALE) / SCALE`.
proof fn lemma_round_trip_component(x: int, len: int)
    requires
        -0x4000_0000 <= x <= 0x4000_0000,
        1 <= len <= 0x8000_0000,
        abs_i(div_t(x * SCALE, len)) <= SCALE as int,
    ensures
        ({
            let u = div_t(x * SCALE, len);
            let s = div_t(u * len, SCALE as int);
            abs_i(s - x) * (SCALE as int) <= len + SCALE
        }),
{
    let u = div_t(x * SCALE, len);
    let s = div_t(u * len, SCALE as int);
    lemma_div_t_bounds(x * SCALE, len);
    lemma_div_t_bounds(u * len, SCALE as int);
    assert(abs_i(s - x) * (SCALE as int) <= len + SCALE) by (nonlinear_arith)
        requires
            x * SCALE - (len - 1) <= len * u <= x * SCALE + (len - 1),
            u * len - (SCALE - 1) <= (SCALE as int) * s <= u * len + (SCALE - 1),
            1 <= len,
            SCALE == 65536,
    ;
}

} // verus!
