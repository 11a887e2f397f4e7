//! Triangles with per-vertex normals, and their ray intersection.
//!
//! The intersection routine mirrors its spec `spec_tri_intersect` step for
//! step: the plane parameter and the barycentric-like coordinates are
//! integer divisions, and a hit is accepted only when the hit point lies
//! inside the triangle's bounding box — the fact tree pruning rests on.

use crate::bound_box::BoundBox;
use crate::math::{div_ts, sdiv128};
use crate::point::Point;
use crate::ray::{spec_along, Ray};
use crate::shape::{Intersection, T_MAX_HIT};
use crate::vector::{
    Vector,
    spec_add, spec_cross, spec_diff, spec_direction, spec_scale, spec_shrink, UnitVector,
};
use crate::SCALE;
use vstd::prelude::*;

verus! {

/// The dot product of two vectors, at the spec level.
pub open spec fn dot3(a: Vector, b: Vector) -> int {
    a.x * b.x + a.y * b.y + a.z * b.z
}

#[derive(Clone, Copy, Debug)]
pub struct Triangle {
    pub a: Point,
    pub ab: Vector,
    pub ac: Vector,
    pub normals: [UnitVector; 3],
}

/// The unnormalized plane normal the intersection formulas use.
pub open spec fn spec_tri_normal(tri: Triangle) -> Vector {
    spec_cross(tri.ac, tri.ab)
}

/// The bounding box of the three vertices, padded by two raw units on
/// every side: the padding absorbs the rounding of hit points, so a flat
/// triangle's box still contains the hits the triangle reports.
pub open spec fn spec_tri_bound(tri: Triangle) -> BoundBox {
    spec_pad_box(
        crate::bound_box::spec_union(
            crate::bound_box::spec_union(
                BoundBox { p_min: tri.a, p_max: tri.a },
                BoundBox {
                    p_min: Point { radius_vector: spec_add(tri.a.radius_vector, tri.ab) },
                    p_max: Point { radius_vector: spec_add(tri.a.radius_vector, tri.ab) },
                },
            ),
            BoundBox {
                p_min: Point { radius_vector: spec_add(tri.a.radius_vector, tri.ac) },
                p_max: Point { radius_vector: spec_add(tri.a.radius_vector, tri.ac) },
            },
        ),
    )
}

/// A box grown by two raw units on every side.
pub open spec fn spec_pad_box(b: BoundBox) -> BoundBox {
    BoundBox {
        p_min: Point {
            radius_vector: Vector {
                x: (b.p_min.radius_vector.x - 2) as i64,
                y: (b.p_min.radius_vector.y - 2) as i64,
                z: (b.p_min.radius_vector.z - 2) as i64,
            },
        },
        p_max: Point {
            radius_vector: Vector {
                x: (b.p_max.radius_vector.x + 2) as i64,
                y: (b.p_max.radius_vector.y + 2) as i64,
                z: (b.p_max.radius_vector.z + 2) as i64,
            },
        },
    }
}

/// The normal reported for a hit: the normalized interpolation of the
/// per-vertex normals, weighted by the barycentric-like coordinates; if the
/// interpolation degenerates to zero, the first vertex normal.
pub open spec fn spec_interp_normal(tri: Triangle, alpha: int, beta: int, gamma: int) -> UnitVector {
    let s = spec_add(
        spec_add(spec_scale(tri.normals[1].direction, alpha), spec_scale(
            tri.normals[2].direction,
            beta,
        )),
        spec_scale(tri.normals[0].direction, gamma),
    );
    if s.is_zero() {
        tri.normals[0]
    } else {
        UnitVector { direction: spec_direction(s) }
    }
}

/// What `Triangle::intersect` computes, step for step.
pub open spec fn spec_tri_intersect(tri: Triangle, ray: Ray) -> Option<Intersection> {
    let n = spec_tri_normal(tri);
    let dn = dot3(ray.direction.direction, n);
    if dn == 0 {
        None
    } else {
        let t = div_ts(dot3(spec_diff(tri.a.radius_vector, ray.origin.radius_vector), n) * SCALE, dn);
        if t < 0 || t > T_MAX_HIT as int {
            None
        } else {
            let p = spec_along(ray, t);
            if !spec_tri_bound(tri).contains(p) {
                None
            } else {
                let ns = spec_shrink(n);
                let ort_ac = spec_cross(tri.ac, ns);
                let ort_ab = spec_cross(tri.ab, ns);
                let den_a = dot3(tri.ab, ort_ac);
                let den_b = dot3(tri.ac, ort_ab);
                if den_a == 0 || den_b == 0 {
                    None
                } else {
                    let w = spec_diff(p.radius_vector, tri.a.radius_vector);
                    let alpha = div_ts(dot3(w, ort_ac) * SCALE, den_a);
                    let beta = div_ts(dot3(w, ort_ab) * SCALE, den_b);
                    let gamma = SCALE - alpha - beta;
                    if 0 < alpha < SCALE as int && 0 < beta < SCALE as int && 0 < gamma
                        < SCALE as int {
                        Some(
                            Intersection {
                                t: t as i64,
                                point: p,
                                local_coordinates: [alpha as i64, beta as i64],
                                normal: spec_interp_normal(tri, alpha, beta, gamma),
                            },
                        )
                    } else {
                        None
                    }
                }
            }
        }
    }
}

impl Triangle {
    /// Well-formed triangle: vertex in the world range, edges within one
    /// coordinate doubling of it, normals well-formed.
    pub open spec fn wf(self) -> bool {
        &&& self.a.wf()
        &&& self.ab.bounded(0x2000_0000)
        &&& self.ac.bounded(0x2000_0000)
        &&& self.normals[0].wf()
        &&& self.normals[1].wf()
        &&& self.normals[2].wf()
    }

    /// Three points make a valid triangle exactly when their edge cross
    /// product is nonzero.
    pub fn are_valid_points(a: Point, b: Point, c: Point) -> (r: bool)
        requires
            a.wf(),
            b.wf(),
            c.wf(),
        ensures
            r == !spec_cross(
                spec_diff(b.radius_vector, a.radius_vector),
                spec_diff(c.radius_vector, a.radius_vector),
            ).is_zero(),
    {
        let ab = b.sub(a);
        let ac = c.sub(a);
        let cr = ab.cross(ac);
        !(cr.x == 0 && cr.y == 0 && cr.z == 0)
    }

    /// Builds a triangle whose three vertex normals all equal the
    /// (normalized, shrunk) plane normal of the vertices.
    pub fn new(a: Point, b: Point, c: Point) -> (r: Triangle)
        requires
            a.wf(),
            b.wf(),
            c.wf(),
            !spec_cross(
                spec_diff(b.radius_vector, a.radius_vector),
                spec_diff(c.radius_vector, a.radius_vector),
            ).is_zero(),
        ensures
            r.wf(),
            r.a == a,
            r.ab == spec_diff(b.radius_vector, a.radius_vector),
            r.ac == spec_diff(c.radius_vector, a.radius_vector),
            r.normals[0] == r.normals[1] && r.normals[1] == r.normals[2],
            r.normals[0].direction == spec_direction(
                spec_shrink(spec_cross(r.ab, r.ac)),
            ),
    {
        let ab = b.sub(a);
        let ac = c.sub(a);
        let cr = ab.cross(ac);
        proof {
            crate::vector::lemma_cross_bounds(ab, ac, 0x2000_0000, 0x2000_0000, cr);
            assert(cr.bounded(0x4000_0000_0000_0000)) by (nonlinear_arith)
                requires
                    cr.bounded((2 * 0x2000_0000 * 0x2000_0000) as int),
            ;
        }
        let n = cr.shrink_to_bounds().direction();
        Triangle { a, ab, ac, normals: [n, n, n] }
    }

    /// Builds a triangle with explicitly given per-vertex normals.
    pub fn with_normals(a: Point, b: Point, c: Point, normals: [UnitVector; 3]) -> (r: Triangle)
        requires
            a.wf(),
            b.wf(),
            c.wf(),
            normals[0].wf(),
            normals[1].wf(),
            normals[2].wf(),
        ensures
            r.wf(),
            r.a == a,
            r.ab == spec_diff(b.radius_vector, a.radius_vector),
            r.ac == spec_diff(c.radius_vector, a.radius_vector),
            r.normals == normals,
    {
        let ab = b.sub(a);
        let ac = c.sub(a);
        Triangle { a, ab, ac, normals }
    }

    /// The bounding box of the three vertices.
    pub fn bound(&self) -> (r: BoundBox)
        requires
            self.wf(),
        ensures
            r == spec_tri_bound(*self),
            r.wf(),
    {
        let pa = self.a;
        let pb = self.a.add(self.ab);
        let pc = self.a.add(self.ac);
        let u = BoundBox::of_point(pa).union(&BoundBox::of_point(pb)).union(
            &BoundBox::of_point(pc),
        );
        BoundBox {
            p_min: Point {
                radius_vector: Vector {
                    x: u.p_min.radius_vector.x - 2,
                    y: u.p_min.radius_vector.y - 2,
                    z: u.p_min.radius_vector.z - 2,
                },
            },
            p_max: Point {
                radius_vector: Vector {
                    x: u.p_max.radius_vector.x + 2,
                    y: u.p_max.radius_vector.y + 2,
                    z: u.p_max.radius_vector.z + 2,
                },
            },
        }
    }

    /// Ray intersection: computes exactly `spec_tri_intersect`, and any hit
    /// is a valid forward hit whose point lies inside the triangle's box.
    pub fn intersect(&self, ray: &Ray) -> (r: Option<Intersection>)
        requires
            self.wf(),
            ray.wf(),
            ray.origin.radius_vector.bounded(0x4000_0000),
        ensures
            r == spec_tri_intersect(*self, *ray),
            r matches Some(i) ==> i.valid_for(*ray) && spec_tri_bound(*self).contains(i.point),
    {
        let n = self.ac.cross(self.ab);
        proof {
            crate::vector::lemma_cross_bounds(self.ac, self.ab, 0x2000_0000, 0x2000_0000, n);
            assert(n.bounded(0x1000_0000_0000_0000)) by (nonlinear_arith)
                requires
                    n.bounded((2 * 0x2000_0000 * 0x2000_0000) as int),
            ;
        }
        let dn: i128 = ray.direction.direction.dot_wide(n);
        if dn == 0 {
            return None;
        }
        let diff = self.a.sub(ray.origin);
        let num: i128 = diff.dot_wide(n);
        proof {
            crate::vector::lemma_mul_abs_bound2(
                num as int,
                SCALE as int,
                0x2000_0000_0000_0000_0000_0000,
                0x1_0000,
            );
        }
        let tq: i128 = if dn > 0 {
            sdiv128(num * (SCALE as i128), dn)
        } else {
            -sdiv128(num * (SCALE as i128), -dn)
        };
        proof {
            lemma_neg_div(num * (SCALE as int), dn as int);
        }
        if tq < 0 || tq > T_MAX_HIT as i128 {
            return None;
        }
        let t: i64 = tq as i64;
        let p = ray.along(t);
        let bb = self.bound();
        let inside = bb.p_min.x() <= p.x() && p.x() <= bb.p_max.x() && bb.p_min.y() <= p.y() && p.y()
            <= bb.p_max.y() && bb.p_min.z() <= p.z() && p.z() <= bb.p_max.z();
        if !inside {
            return None;
        }
        let ns = n.shrink_to_bounds();
        let ort_ac = self.ac.cross(ns);
        let ort_ab = self.ab.cross(ns);
        proof {
            crate::vector::lemma_cross_bounds(self.ac, ns, 0x2000_0000, 0x4000_0000, ort_ac);
            crate::vector::lemma_cross_bounds(self.ab, ns, 0x2000_0000, 0x4000_0000, ort_ab);
            assert(ort_ac.bounded(0x1000_0000_0000_0000) && ort_ab.bounded(0x1000_0000_0000_0000))
                by (nonlinear_arith)
                requires
                    ort_ac.bounded((2 * 0x2000_0000 * 0x4000_0000) as int),
                    ort_ab.bounded((2 * 0x2000_0000 * 0x4000_0000) as int),
            ;
        }
        let den_a: i128 = self.ab.dot_wide(ort_ac);
        let den_b: i128 = self.ac.dot_wide(ort_ab);
        if den_a == 0 || den_b == 0 {
            return None;
        }
        let w = p.sub(self.a);
        let num_a: i128 = w.dot_wide(ort_ac);
        let num_b: i128 = w.dot_wide(ort_ab);
        proof {
            crate::vector::lemma_mul_abs_bound2(
                num_a as int,
                SCALE as int,
                0x2000_0000_0000_0000_0000_0000,
                0x1_0000,
            );
            crate::vector::lemma_mul_abs_bound2(
                num_b as int,
                SCALE as int,
                0x2000_0000_0000_0000_0000_0000,
                0x1_0000,
            );
        }
        let alpha_q: i128 = if den_a > 0 {
            sdiv128(num_a * (SCALE as i128), den_a)
        } else {
            -sdiv128(num_a * (SCALE as i128), -den_a)
        };
        let beta_q: i128 = if den_b > 0 {
            sdiv128(num_b * (SCALE as i128), den_b)
        } else {
            -sdiv128(num_b * (SCALE as i128), -den_b)
        };
        proof {
            lemma_neg_div(num_a * (SCALE as int), den_a as int);
            lemma_neg_div(num_b * (SCALE as int), den_b as int);
        }
        if !(0 < alpha_q && alpha_q < SCALE as i128 && 0 < beta_q && beta_q < SCALE as i128) {
            return None;
        }
        let alpha: i64 = alpha_q as i64;
        let beta: i64 = beta_q as i64;
        let gamma: i64 = SCALE - alpha - beta;
        if !(0 < gamma && gamma < SCALE) {
            return None;
        }
        let normal = self.interpolate_normal(alpha, beta, gamma);
        Some(Intersection { t, point: p, local_coordinates: [alpha, beta], normal })
    }

    /// The normalized interpolation of the vertex normals.
    fn interpolate_normal(&self, alpha: i64, beta: i64, gamma: i64) -> (r: UnitVector)
        requires
            self.wf(),
            0 <= alpha <= SCALE,
            0 <= beta <= SCALE,
            0 <= gamma <= SCALE,
        ensures
            r == spec_interp_normal(*self, alpha as int, beta as int, gamma as int),
            r.wf(),
    {
        let s = self.normals[1].scale(alpha).add(self.normals[2].scale(beta)).add(
            self.normals[0].scale(gamma),
        );
        if s.x == 0 && s.y == 0 && s.z == 0 {
            self.normals[0]
        } else {
            s.direction()
        }
    }
}

/// A well-formed triangle's bounding box is solid.
pub proof fn lemma_tri_bound_wf(tri: Triangle)
    requires
        tri.wf(),
    ensures
        spec_tri_bound(tri).wf(),
{
}

/// The interpolated normal of a well-formed triangle is well-formed.
proof fn lemma_interp_normal_wf(tri: Triangle, alpha: int, beta: int, gamma: int)
    requires
        tri.wf(),
        0 <= alpha <= SCALE as int,
        0 <= beta <= SCALE as int,
        0 <= gamma <= SCALE as int,
    ensures
        spec_interp_normal(tri, alpha, beta, gamma).wf(),
{
    let d1 = tri.normals[1].direction;
    let d2 = tri.normals[2].direction;
    let d0 = tri.normals[0].direction;
    crate::vector::lemma_unit_scale_bound(
        d1.x as int,
        alpha,
        crate::math::div_t(d1.x * alpha, SCALE as int),
    );
    crate::vector::lemma_unit_scale_bound(
        d1.y as int,
        alpha,
        crate::math::div_t(d1.y * alpha, SCALE as int),
    );
    crate::vector::lemma_unit_scale_bound(
        d1.z as int,
        alpha,
        crate::math::div_t(d1.z * alpha, SCALE as int),
    );
    crate::vector::lemma_unit_scale_bound(
        d2.x as int,
        beta,
        crate::math::div_t(d2.x * beta, SCALE as int),
    );
    crate::vector::lemma_unit_scale_bound(
        d2.y as int,
        beta,
        crate::math::div_t(d2.y * beta, SCALE as int),
    );
    crate::vector::lemma_unit_scale_bound(
        d2.z as int,
        beta,
        crate::math::div_t(d2.z * beta, SCALE as int),
    );
    crate::vector::lemma_unit_scale_bound(
        d0.x as int,
        gamma,
        crate::math::div_t(d0.x * gamma, SCALE as int),
    );
    crate::vector::lemma_unit_scale_bound(
        d0.y as int,
        gamma,
        crate::math::div_t(d0.y * gamma, SCALE as int),
    );
    crate::vector::lemma_unit_scale_bound(
        d0.z as int,
        gamma,
        crate::math::div_t(d0.z * gamma, SCALE as int),
    );
    let s = spec_add(
        spec_add(spec_scale(d1, alpha), spec_scale(d2, beta)),
        spec_scale(d0, gamma),
    );
    assert(s.bounded(0x4000_0000));
    if !s.is_zero() {
        crate::vector::lemma_norm2_pos(s);
        crate::math::lemma_sqrt_exists(s.norm2());
        crate::vector::lemma_direction_bounds(s, crate::math::sqrt_i(s.norm2()));
    }
}

/// Any hit that `spec_tri_intersect` reports is a valid forward hit whose
/// point lies inside the triangle's bounding box.
pub proof fn lemma_tri_hit_valid(tri: Triangle, ray: Ray)
    requires
        tri.wf(),
        ray.wf(),
        ray.origin.radius_vector.bounded(0x4000_0000),
    ensures
        spec_tri_intersect(tri, ray) matches Some(i) ==> i.valid_for(ray) && spec_tri_bound(
            tri,
        ).contains(i.point),
{
    lemma_tri_bound_wf(tri);
    let n = spec_tri_normal(tri);
    let dn = dot3(ray.direction.direction, n);
    if dn != 0 {
        let t = div_ts(dot3(spec_diff(tri.a.radius_vector, ray.origin.radius_vector), n) * SCALE, dn);
        if 0 <= t <= T_MAX_HIT as int {
            let p = spec_along(ray, t);
            if spec_tri_bound(tri).contains(p) {
                let ns = spec_shrink(n);
                let ort_ac = spec_cross(tri.ac, ns);
                let ort_ab = spec_cross(tri.ab, ns);
                let den_a = dot3(tri.ab, ort_ac);
                let den_b = dot3(tri.ac, ort_ab);
                if den_a != 0 && den_b != 0 {
                    let w = spec_diff(p.radius_vector, tri.a.radius_vector);
                    let alpha = div_ts(dot3(w, ort_ac) * SCALE, den_a);
                    let beta = div_ts(dot3(w, ort_ab) * SCALE, den_b);
                    let gamma = SCALE - alpha - beta;
                    if 0 < alpha < SCALE as int && 0 < beta < SCALE as int && 0 < gamma
                        < SCALE as int {
                        lemma_interp_normal_wf(tri, alpha, beta, gamma);
                    }
                }
            }
        }
    }
}

impl crate::bvh::BoundedShape for Triangle {
    open spec fn shape_wf(&self) -> bool {
        self.wf()
    }

    open spec fn spec_bound(&self) -> BoundBox {
        spec_tri_bound(*self)
    }

    open spec fn spec_hit(&self, ray: Ray) -> Option<Intersection> {
        spec_tri_intersect(*self, ray)
    }

    fn bound(&self) -> (b: BoundBox) {
        Triangle::bound(self)
    }

    fn intersect(&self, ray: &Ray) -> (r: Option<Intersection>) {
        Triangle::intersect(self, ray)
    }

    proof fn hit_valid(self, ray: Ray) {
        lemma_tri_hit_valid(self, ray);
    }
}

/// Truncating division of a negated divisor flips the sign of the quotient.
proof fn lemma_neg_div(a: int, b: int)
    requires
        b != 0,
    ensures
        b < 0 ==> div_ts(a, b) == -crate::math::div_t(a, -b),
        b > 0 ==> div_ts(a, b) == crate::math::div_t(a, b),
{
}

} // verus!
