//! Spheres and their ray intersection via the quadratic formula.

use crate::math::{div_t, div_ts, isqrt, lemma_div_t_bounds, lemma_sqrt_unique, sdiv128, sqrt_i};
use crate::point::Point;
use crate::ray::{spec_along, Ray};
use crate::shape::{Intersection, T_MAX_HIT};
use crate::vector::{spec_diff, spec_direction, UnitVector, Vector, MAX_COORD};
use crate::SCALE;
use vstd::prelude::*;

verus! {

pub struct Sphere {
    pub center: Point,
    pub radius: i64,
}

/// The dot product of two vectors, at the spec level.
pub open spec fn dot3(a: Vector, b: Vector) -> int {
    a.x * b.x + a.y * b.y + a.z * b.z
}

/// The hit the sphere reports at parameter `t`, if the hit point stays in
/// range and away from the center.
pub open spec fn spec_sphere_hit_at(sph: Sphere, ray: Ray, t: int) -> Option<Intersection> {
    let p = spec_along(ray, t);
    if p.radius_vector.bounded(0x2000_0000) && p != sph.center {
        Some(
            Intersection {
                t: t as i64,
                point: p,
                local_coordinates: [0, 0],
                normal: UnitVector {
                    direction: spec_direction(spec_diff(p.radius_vector, sph.center.radius_vector)),
                },
            },
        )
    } else {
        None
    }
}

/// What `Sphere::intersect` computes: the smaller positive root of the
/// quadratic first, then the larger; roots beyond `T_MAX_HIT` and hit
/// points outside the representable range are reported as misses, a
/// deliberate range policy.
pub open spec fn spec_sphere_intersect(sph: Sphere, ray: Ray) -> Option<Intersection> {
    let o = spec_diff(ray.origin.radius_vector, sph.center.radius_vector);
    let k = div_ts(dot3(ray.direction.direction, o), SCALE as int);
    let disc = k * k - (dot3(o, o) - sph.radius * sph.radius);
    if disc < 0 {
        None
    } else {
        let sq = sqrt_i(disc);
        let t1 = -k - sq;
        let t2 = -k + sq;
        if t1 > 0 {
            if t1 <= T_MAX_HIT as int {
                spec_sphere_hit_at(sph, ray, t1)
            } else {
                None
            }
        } else if t2 > 0 {
            if t2 <= T_MAX_HIT as int {
                spec_sphere_hit_at(sph, ray, t2)
            } else {
                None
            }
        } else {
            None
        }
    }
}

impl Sphere {
    /// Well-formed sphere: center in the world range, positive in-range
    /// radius.
    pub open spec fn wf(self) -> bool {
        &&& self.center.wf()
        &&& 0 < self.radius <= MAX_COORD
    }

    pub fn new(center: Point, radius: i64) -> (r: Sphere)
        requires
            center.wf(),
            0 < radius <= MAX_COORD,
        ensures
            r.center == center,
            r.radius == radius,
            r.wf(),
    {
        Sphere { center, radius }
    }

    /// Ray intersection: computes exactly `spec_sphere_intersect`, and any
    /// hit is a valid forward hit.
    pub fn intersect(&self, ray: &Ray) -> (r: Option<Intersection>)
        requires
            self.wf(),
            ray.wf(),
            ray.origin.radius_vector.bounded(0x4000_0000),
        ensures
            r == spec_sphere_intersect(*self, *ray),
            r matches Some(i) ==> i.valid_for(*ray),
    {
        let o = ray.origin.sub(self.center);
        proof {
            lemma_dot3_bound(ray.direction.direction, o, SCALE as int, 0x5000_0000);
            assert(3 * (SCALE as int) * 0x5000_0000 < 0x1_0000_0000_0000int) by (nonlinear_arith);
        }
        let dw: i128 = ray.direction.direction.dot_wide(o);
        let k: i128 = if dw >= 0 {
            sdiv128(dw, SCALE as i128)
        } else {
            -sdiv128(-dw, SCALE as i128)
        };
        proof {
            lemma_div_abs(dw as int, SCALE as int, 0x1_0000_0000_0000);
            assert(0 <= k * k <= 0x1_0000_0000_0000_0000_0000_0000int) by (nonlinear_arith)
                requires
                    -0x1_0000_0000_0000 <= k <= 0x1_0000_0000_0000,
            ;
            assert(0 <= (self.radius as int) * (self.radius as int)
                <= 0x100_0000_0000_0000int) by (nonlinear_arith)
                requires
                    0 < self.radius <= 0x1000_0000,
            ;
        }
        let oo: i128 = o.dot_wide(o);
        let rr: i128 = (self.radius as i128) * (self.radius as i128);
        let disc: i128 = k * k - (oo - rr);
        if disc < 0 {
            return None;
        }
        let sq128: u128 = disc as u128;
        let sq: i128 = isqrt(sq128) as i128;
        proof {
            lemma_sqrt_unique(disc as int, sq as int);
        }
        let t1: i128 = -k - sq;
        let t2: i128 = -k + sq;
        if t1 > 0 {
            if t1 <= T_MAX_HIT as i128 {
                self.hit_at(ray, t1 as i64)
            } else {
                None
            }
        } else if t2 > 0 {
            if t2 <= T_MAX_HIT as i128 {
                self.hit_at(ray, t2 as i64)
            } else {
                None
            }
        } else {
            None
        }
    }

    /// Builds the hit record at parameter `t`, guarding the point's range.
    fn hit_at(&self, ray: &Ray, t: i64) -> (r: Option<Intersection>)
        requires
            self.wf(),
            ray.wf(),
            ray.origin.radius_vector.bounded(0x4000_0000),
            0 < t <= T_MAX_HIT,
        ensures
            r == spec_sphere_hit_at(*self, *ray, t as int),
            r matches Some(i) ==> i.valid_for(*ray),
    {
        let p = ray.along(t);
        let pv = p.radius_vector;
        if !(pv.x >= -0x2000_0000 && pv.x <= 0x2000_0000 && pv.y >= -0x2000_0000 && pv.y
            <= 0x2000_0000 && pv.z >= -0x2000_0000 && pv.z <= 0x2000_0000) {
            return None;
        }
        let cv = self.center.radius_vector;
        if pv.x == cv.x && pv.y == cv.y && pv.z == cv.z {
            return None;
        }
        let normal = p.sub(self.center).direction();
        Some(Intersection { t, point: p, local_coordinates: [0, 0], normal })
    }
}

/// The magnitude of a quotient is at most the magnitude of the dividend.
pub(crate) proof fn lemma_div_abs(a: int, b: int, bound: int)
    requires
        b >= 1,
        -bound <= a <= bound,
        bound >= 0,
    ensures
        -bound <= div_ts(a, b) <= bound,
        a >= 0 ==> div_ts(a, b) == div_t(a, b),
        a < 0 ==> div_ts(a, b) == -div_t(-a, b),
{
    lemma_div_t_bounds(a, b);
    let q = div_t(a, b);
    assert(-bound <= q <= bound) by (nonlinear_arith)
        requires
            a - (b - 1) <= b * q <= a + (b - 1),
            a >= 0 ==> b * q <= a && q >= 0,
            a <= 0 ==> a <= b * q && q <= 0,
            b >= 1,
            -bound <= a <= bound,
            bound >= 0,
    ;
    if a < 0 {
        lemma_div_t_bounds(-a, b);
    }
}

/// A dot product of vectors bounded by `ba` and `bb` stays within
/// `3 * ba * bb`.
pub(crate) proof fn lemma_dot3_bound(a: Vector, b: Vector, ba: int, bb: int)
    requires
        a.bounded(ba),
        b.bounded(bb),
        ba >= 0,
        bb >= 0,
    ensures
        -(3 * ba * bb) <= dot3(a, b) <= 3 * ba * bb,
{
    crate::vector::lemma_mul_abs_bound2(a.x as int, b.x as int, ba, bb);
    crate::vector::lemma_mul_abs_bound2(a.y as int, b.y as int, ba, bb);
    crate::vector::lemma_mul_abs_bound2(a.z as int, b.z as int, ba, bb);
    assert(3 * ba * bb == (ba * bb) + (ba * bb) + (ba * bb)) by (nonlinear_arith);
}

} // verus!
