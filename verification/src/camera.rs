//! The pinhole camera: a position, a screen in space, and the ray cast
//! through a normalized screen point.

use crate::point::Point;
use crate::ray::{spec_from_to, Ray};
use crate::vector::{spec_add, spec_direction, spec_scale, spec_shrink, UnitVector, Vector};
use crate::SCALE;
use vstd::prelude::*;

verus! {

/// A position on the screen, in fixed point; normalized coordinates run
/// from -1 to 1.
#[derive(Clone, Copy, PartialEq, Eq, Structural, Debug)]
pub struct ScreenPoint {
    pub x: i64,
    pub y: i64,
}

impl ScreenPoint {
    pub fn new(x: i64, y: i64) -> (r: ScreenPoint)
        ensures
            r == (ScreenPoint { x, y }),
    {
        ScreenPoint { x, y }
    }

    /// Both coordinates lie in the normalized screen square.
    pub fn is_normalized(&self) -> (r: bool)
        ensures
            r == (-SCALE <= self.x < SCALE && -SCALE <= self.y < SCALE),
    {
        -SCALE <= self.x && self.x < SCALE && -SCALE <= self.y && self.y < SCALE
    }
}

pub struct Camera {
    pub position: Point,
    pub screen_center: Point,
    pub basis0: Vector,
    pub basis1: Vector,
}

/// What `looking_at` computes: the screen center at the focus distance
/// toward the target, and the basis from the normalized (shrunk) cross
/// products; `None` when the screen leaves the world range, collapses onto
/// the position, or the up direction is parallel to the view.
pub open spec fn spec_looking_at(
    position: Point,
    look_at: Point,
    focus_distance: i64,
    up: UnitVector,
    size0: i64,
    size1: i64,
) -> Option<Camera> {
    let ray_to_screen = spec_from_to(position, look_at);
    let center = crate::ray::spec_along(ray_to_screen, focus_distance as int);
    if !center.radius_vector.bounded(0x1000_0000) {
        None
    } else if center == position {
        None
    } else {
        let cr = crate::vector::spec_cross(ray_to_screen.direction.direction, up.direction);
        if cr.is_zero() {
            None
        } else {
            let right = UnitVector { direction: spec_direction(spec_shrink(cr)) };
            let cr2 = crate::vector::spec_cross(right.direction, ray_to_screen.direction.direction);
            if cr2.is_zero() {
                None
            } else {
                let screen_up = UnitVector { direction: spec_direction(spec_shrink(cr2)) };
                let b0 = spec_scale(right.direction, (size0 / 2) as int);
                let b1n = spec_scale(screen_up.direction, (size1 / 2) as int);
                let b1 = Vector { x: (-b1n.x) as i64, y: (-b1n.y) as i64, z: (-b1n.z) as i64 };
                Some(Camera { position, screen_center: center, basis0: b0, basis1: b1 })
            }
        }
    }
}

/// What `cast_ray` computes: the ray toward the screen target, or toward
/// the screen center when the target degenerates onto the position.
pub open spec fn spec_cast_ray(cam: Camera, sp: ScreenPoint) -> Ray {
    let target = spec_screen_target(cam, sp);
    if target != cam.position {
        spec_from_to(cam.position, target)
    } else {
        spec_from_to(cam.position, cam.screen_center)
    }
}

/// The screen target of a normalized screen point.
pub open spec fn spec_screen_target(cam: Camera, sp: ScreenPoint) -> Point {
    Point {
        radius_vector: spec_add(
            spec_add(cam.screen_center.radius_vector, spec_scale(cam.basis0, sp.x as int)),
            spec_scale(cam.basis1, sp.y as int),
        ),
    }
}

impl Camera {
    /// Well-formed camera: position and screen in the world range, the
    /// screen basis within the world size.
    pub open spec fn wf(self) -> bool {
        &&& self.position.wf()
        &&& self.screen_center.wf()
        &&& self.screen_center != self.position
        &&& self.basis0.bounded(0x800_0000)
        &&& self.basis1.bounded(0x800_0000)
    }

    pub fn new(position: Point, screen_center: Point, basis0: Vector, basis1: Vector) -> (r:
        Camera)
        requires
            position.wf(),
            screen_center.wf(),
            screen_center != position,
            basis0.bounded(0x800_0000),
            basis1.bounded(0x800_0000),
        ensures
            r == (Camera { position, screen_center, basis0, basis1 }),
            r.wf(),
    {
        Camera { position, screen_center, basis0, basis1 }
    }

    /// Builds a camera from a position, a target, a focus distance, an up
    /// direction and the screen size: the screen sits at the focus distance
    /// toward the target, spanned by the right and screen-up directions.
    /// Returns `None` when the construction degenerates (the up direction
    /// parallel to the view, or the screen out of the world range).
    pub fn looking_at(
        position: Point,
        look_at: Point,
        focus_distance: i64,
        up: UnitVector,
        size0: i64,
        size1: i64,
    ) -> (r: Option<Camera>)
        requires
            position.wf(),
            look_at.wf(),
            position != look_at,
            0 < focus_distance <= 0x1_0000_0000,
            up.wf(),
            0 <= size0 <= 0x1000_0000,
            0 <= size1 <= 0x1000_0000,
        ensures
            r == spec_looking_at(position, look_at, focus_distance, up, size0, size1),
            r matches Some(c) ==> c.wf() && c.position == position,
    {
        let ray_to_screen = Ray::from_to(position, look_at);
        let center = ray_to_screen.along(focus_distance);
        let cv = center.radius_vector;
        if !(cv.x >= -0x1000_0000 && cv.x <= 0x1000_0000 && cv.y >= -0x1000_0000 && cv.y
            <= 0x1000_0000 && cv.z >= -0x1000_0000 && cv.z <= 0x1000_0000) {
            return None;
        }
        let pv = position.radius_vector;
        if cv.x == pv.x && cv.y == pv.y && cv.z == pv.z {
            return None;
        }
        let cr = ray_to_screen.direction.cross(up);
        if cr.x == 0 && cr.y == 0 && cr.z == 0 {
            return None;
        }
        proof {
            crate::vector::lemma_cross_bounds(
                ray_to_screen.direction.direction,
                up.direction,
                SCALE as int,
                SCALE as int,
                cr,
            );
            assert(cr.bounded((2 * SCALE * SCALE) as int));
        }
        let right = cr.shrink_to_bounds().direction();
        let cr2 = right.cross(ray_to_screen.direction);
        if cr2.x == 0 && cr2.y == 0 && cr2.z == 0 {
            return None;
        }
        proof {
            crate::vector::lemma_cross_bounds(
                right.direction,
                ray_to_screen.direction.direction,
                SCALE as int,
                SCALE as int,
                cr2,
            );
            assert(cr2.bounded((2 * SCALE * SCALE) as int));
        }
        let screen_up = cr2.shrink_to_bounds().direction();
        let basis0 = right.scale(size0 / 2);
        let basis1 = screen_up.scale(size1 / 2).neg();
        proof {
            assert(center != position);
        }
        Some(Camera::new(position, center, basis0, basis1))
    }

    /// Casts the primary ray through a normalized screen point: from the
    /// camera position toward the screen target. If the target coincides
    /// with the position, the ray is aimed at the screen center instead.
    pub fn cast_ray(&self, screen_point: ScreenPoint) -> (r: Ray)
        requires
            self.wf(),
            -SCALE <= screen_point.x <= SCALE,
            -SCALE <= screen_point.y <= SCALE,
            self.screen_center != self.position,
        ensures
            r == spec_cast_ray(*self, screen_point),
            r.wf(),
            r.origin == self.position,
    {
        let s0 = self.basis0.scale(screen_point.x);
        let s1 = self.basis1.scale(screen_point.y);
        proof {
            lemma_scaled_basis_bound(self.basis0, screen_point.x as int, s0);
            lemma_scaled_basis_bound(self.basis1, screen_point.y as int, s1);
        }
        let t0 = self.screen_center.add(s0);
        let target = t0.add(s1);
        let tv = target.radius_vector;
        let pv = self.position.radius_vector;
        if tv.x == pv.x && tv.y == pv.y && tv.z == pv.z {
            proof {
                assert(target == self.position);
            }
            Ray::from_to(self.position, self.screen_center)
        } else {
            proof {
                assert(target != self.position);
                assert(target.radius_vector.bounded(0x2000_0000));
            }
            Ray::from_to(self.position, target)
        }
    }
}

/// A screen basis vector scaled by a normalized coordinate stays within
/// the basis bound.
proof fn lemma_scaled_basis_bound(b: Vector, c: int, s: Vector)
    requires
        b.bounded(0x800_0000),
        -(SCALE as int) <= c <= SCALE as int,
        crate::math::abs_i(s.x as int) * (SCALE as int) <= crate::math::abs_i(b.x * c),
        crate::math::abs_i(s.y as int) * (SCALE as int) <= crate::math::abs_i(b.y * c),
        crate::math::abs_i(s.z as int) * (SCALE as int) <= crate::math::abs_i(b.z * c),
    ensures
        s.bounded(0x800_0000),
{
    lemma_scaled_component(b.x as int, c, s.x as int);
    lemma_scaled_component(b.y as int, c, s.y as int);
    lemma_scaled_component(b.z as int, c, s.z as int);
}

/// One component of the scaled-basis bound.
proof fn lemma_scaled_component(b: int, c: int, s: int)
    requires
        -0x800_0000 <= b <= 0x800_0000,
        -(SCALE as int) <= c <= SCALE as int,
        crate::math::abs_i(s) * (SCALE as int) <= crate::math::abs_i(b * c),
    ensures
        -0x800_0000 <= s <= 0x800_0000,
{
    assert(crate::math::abs_i(b * c) <= 0x800_0000 * (SCALE as int)) by (nonlinear_arith)
        requires
            -0x800_0000 <= b <= 0x800_0000,
            -(SCALE as int) <= c <= SCALE as int,
    ;
    assert(-0x800_0000 <= s <= 0x800_0000) by (nonlinear_arith)
        requires
            crate::math::abs_i(s) * (SCALE as int) <= 0x800_0000 * (SCALE as int),
            SCALE == 65536,
    ;
}

} // verus!
