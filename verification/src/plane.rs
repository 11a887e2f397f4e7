//! Infinite planes and their ray intersection.

use crate::math::sdiv128;
use crate::point::Point;
use crate::ray::{spec_along, Ray};
use crate::shape::{Intersection, T_MAX_HIT};
use crate::sphere::{dot3, lemma_dot3_bound};
use crate::vector::{spec_diff, UnitVector};
use crate::SCALE;
use vstd::prelude::*;

verus! {

pub struct Plane {
    pub origin: Point,
    pub normal: UnitVector,
}

/// What `Plane::intersect` computes: the plane-equation parameter, with a
/// deliberate range policy on top of the geometry — a forward hit farther
/// than `T_MAX_HIT` or outside the representable world box is reported as
/// a miss, since no well-formed scene can contain it.
pub open spec fn spec_plane_intersect(pl: Plane, ray: Ray) -> Option<Intersection> {
    let o = spec_diff(ray.origin.radius_vector, pl.origin.radius_vector);
    let den = dot3(ray.direction.direction, pl.normal.direction);
    if den == 0 {
        None
    } else {
        let t = crate::math::div_ts(-dot3(o, pl.normal.direction) * SCALE, den);
        if t < 0 || t > T_MAX_HIT as int {
            None
        } else {
            let p = spec_along(ray, t);
            if p.radius_vector.bounded(0x3000_0000) {
                Some(
                    Intersection { t: t as i64, point: p, local_coordinates: [0, 0], normal: pl.normal },
                )
            } else {
                None
            }
        }
    }
}

impl Plane {
    pub open spec fn wf(self) -> bool {
        &&& self.origin.wf()
        &&& self.normal.wf()
    }

    pub fn new(origin: Point, normal: UnitVector) -> (r: Plane)
        requires
            origin.wf(),
            normal.wf(),
        ensures
            r.origin == origin,
            r.normal == normal,
            r.wf(),
    {
        Plane { origin, normal }
    }

    /// Ray intersection: computes exactly `spec_plane_intersect`, and any
    /// hit is a valid forward hit.
    pub fn intersect(&self, ray: &Ray) -> (r: Option<Intersection>)
        requires
            self.wf(),
            ray.wf(),
            ray.origin.radius_vector.bounded(0x4000_0000),
        ensures
            r == spec_plane_intersect(*self, *ray),
            r matches Some(i) ==> i.valid_for(*ray),
    {
        let den: i64 = ray.direction.dot_unit(self.normal);
        if den == 0 {
            return None;
        }
        let o = ray.origin.sub(self.origin);
        proof {
            lemma_dot3_bound(o, self.normal.direction, 0x5000_0000, SCALE as int);
            assert(3 * 0x5000_0000 * (SCALE as int) < 0x1_0000_0000_0000int) by (nonlinear_arith);
        }
        let num: i128 = o.dot_wide(self.normal.direction);
        let numerator: i128 = -num * (SCALE as i128);
        proof {
            assert(-0x1_0000_0000_0000_0000_0000 <= (-(num as int)) * (SCALE as int)
                <= 0x1_0000_0000_0000_0000_0000int) by (nonlinear_arith)
                requires
                    -0x1_0000_0000_0000 <= num <= 0x1_0000_0000_0000,
                    SCALE == 65536,
            ;
        }
        let e: i128 = if den > 0 {
            den as i128
        } else {
            -(den as i128)
        };
        let m: i128 = if numerator >= 0 {
            numerator
        } else {
            -numerator
        };
        let mq: i128 = sdiv128(m, e);
        let tq: i128 = if (numerator >= 0) == (den > 0) {
            mq
        } else {
            -mq
        };
        proof {
            lemma_signed_div(numerator as int, den as int, e as int, tq as int);
        }
        if tq < 0 || tq > T_MAX_HIT as i128 {
            return None;
        }
        let t: i64 = tq as i64;
        let p = ray.along(t);
        let pv = p.radius_vector;
        if !(pv.x >= -0x3000_0000 && pv.x <= 0x3000_0000 && pv.y >= -0x3000_0000 && pv.y
            <= 0x3000_0000 && pv.z >= -0x3000_0000 && pv.z <= 0x3000_0000) {
            return None;
        }
        Some(Intersection { t, point: p, local_coordinates: [0, 0], normal: self.normal })
    }
}

/// Sign-split truncating division agrees with `div_ts` for either sign of
/// the divisor.
proof fn lemma_signed_div(a: int, d: int, e: int, q: int)
    requires
        d != 0,
        e == if d > 0 {
            d
        } else {
            -d
        },
        q == if (a >= 0) == (d > 0) {
            crate::math::div_t(if a >= 0 {
                a
            } else {
                -a
            }, e)
        } else {
            -crate::math::div_t(if a >= 0 {
                a
            } else {
                -a
            }, e)
        },
    ensures
        q == crate::math::div_ts(a, d),
{
    if d > 0 {
        assert(crate::math::div_ts(a, d) == crate::math::div_t(a, e));
    } else {
        assert(crate::math::div_ts(a, d) == -crate::math::div_t(a, e));
    }
    if a >= 0 {
        assert(crate::math::div_t(a, e) == crate::math::div_t(a, e));
    } else {
        assert(crate::math::div_t(a, e) == -crate::math::div_t(-a, e));
    }
}

} // verus!
