//! The scene: primitives (a shape bound to a material index), lights, the
//! camera, and the global nearest-obstacle and visibility queries.

use crate::camera::Camera;
use crate::color::Color;
use crate::light::LightSource;
use crate::material::Material;
use crate::math::{lemma_sqrt_unique, sqrt_i};
use crate::mesh::Mesh;
use crate::plane::{spec_plane_intersect, Plane};
use crate::point::Point;
use crate::ray::{spec_along, spec_from_to, Ray};
use crate::sphere::{spec_sphere_intersect, Sphere};
use crate::bvh::BoundedShape;
use crate::triangle::{spec_tri_intersect, Triangle};
use crate::vector::{spec_diff, UnitVector};
use vstd::prelude::*;

verus! {

/// The step a secondary ray's origin is pushed along its direction, so it
/// does not immediately hit the surface it starts on.
pub const RAY_OFFSET: i64 = 16;

/// One renderable shape: the closed set of shape variants.
pub enum ShapeKind {
    Sphere(Sphere),
    Plane(Plane),
    Triangle(Triangle),
    Mesh(Mesh),
}

impl ShapeKind {
    pub open spec fn wf(self) -> bool {
        match self {
            ShapeKind::Sphere(s) => s.wf(),
            ShapeKind::Plane(p) => p.wf(),
            ShapeKind::Triangle(t) => t.wf(),
            ShapeKind::Mesh(m) => m.wf(),
        }
    }

    /// `j` is a hit this shape reports for `ray` (for a mesh: a hit of one
    /// of its triangles).
    pub open spec fn spec_hit_any(self, ray: Ray, j: crate::shape::Intersection) -> bool {
        match self {
            ShapeKind::Sphere(s) => spec_sphere_intersect(s, ray) == Some(j),
            ShapeKind::Plane(p) => spec_plane_intersect(p, ray) == Some(j),
            ShapeKind::Triangle(t) => spec_tri_intersect(t, ray) == Some(j),
            ShapeKind::Mesh(m) => exists|k: int|
                0 <= k < m.spec_triangles().len() && spec_tri_intersect(
                    #[trigger] m.spec_triangles()[k],
                    ray,
                ) == Some(j),
        }
    }

    /// The nearest hit of this shape: `None` exactly when nothing hits,
    /// otherwise a reported hit with a minimal parameter, in range.
    pub fn intersect(&self, ray: &Ray) -> (r: Option<crate::shape::Intersection>)
        requires
            self.wf(),
            ray.wf(),
            ray.origin.radius_vector.bounded(0x4000_0000),
        ensures
            r matches Some(i) ==> i.valid_for(*ray) && i.point.radius_vector.bounded(0x3000_0010)
                && self.spec_hit_any(*ray, i) && (forall|j: crate::shape::Intersection|
                self.spec_hit_any(*ray, j) ==> i.t <= j.t),
            r is None ==> forall|j: crate::shape::Intersection| !self.spec_hit_any(*ray, j),
    {
        match self {
            ShapeKind::Sphere(s) => {
                let r = s.intersect(ray);
                r
            },
            ShapeKind::Plane(p) => {
                let r = p.intersect(ray);
                r
            },
            ShapeKind::Triangle(t) => {
                let r = t.intersect(ray);
                proof {
                    match r {
                        Some(i) => lemma_tri_point_range(*t, i.point),
                        None => (),
                    }
                }
                r
            },
            ShapeKind::Mesh(m) => {
                let r = m.intersect(ray);
                proof {
                    let tris = m.spec_triangles();
                    assert(forall|k: int|
                        0 <= k < tris.len() ==> (#[trigger] tris[k]).wf()) by {
                        m.index.root.lemma_inv_bounds();
                    }
                    match r {
                        Some(i) => {
                            let k = choose|k: int|
                                0 <= k < tris.len() && (#[trigger] tris[k]).spec_hit(*ray) == Some(
                                    i,
                                );
                            lemma_tri_point_range(tris[k], i.point);
                            assert(self.spec_hit_any(*ray, i));
                            assert forall|j: crate::shape::Intersection|
                                self.spec_hit_any(*ray, j) implies i.t <= j.t by {
                                let k2 = choose|k2: int|
                                    0 <= k2 < tris.len() && spec_tri_intersect(
                                        #[trigger] tris[k2],
                                        *ray,
                                    ) == Some(j);
                                assert(tris[k2].spec_hit(*ray) == Some(j));
                            }
                        },
                        None => {
                            assert forall|j: crate::shape::Intersection|
                                !self.spec_hit_any(*ray, j) by {
                                if self.spec_hit_any(*ray, j) {
                                    let k2 = choose|k2: int|
                                        0 <= k2 < tris.len() && spec_tri_intersect(
                                            #[trigger] tris[k2],
                                            *ray,
                                        ) == Some(j);
                                    assert(tris[k2].spec_hit(*ray) == Some(j));
                                }
                            }
                        },
                    }
                }
                r
            },
        }
    }
}

/// A triangle hit point lies within one edge length of the world range.
proof fn lemma_tri_point_range(t: Triangle, p: Point)
    requires
        t.wf(),
        crate::triangle::spec_tri_bound(t).contains(p),
    ensures
        p.radius_vector.bounded(0x3000_0010),
{
}

/// A shape bound to a material by index.
pub struct Primitive {
    pub shape: ShapeKind,
    pub material_idx: usize,
}

impl Primitive {
    pub fn new(shape: ShapeKind, material_idx: usize) -> (r: Primitive)
        ensures
            r.shape == shape,
            r.material_idx == material_idx,
    {
        Primitive { shape, material_idx }
    }
}

/// A scene-level hit: the geometric hit plus the material it struck.
#[derive(Clone, Copy)]
pub struct Intersection {
    pub geom: crate::shape::Intersection,
    pub material_idx: usize,
}

/// A scene that could not be assembled.
pub struct ParseSceneError {
    pub description: String,
}

/// `r` is a correct answer of the nearest-obstacle query on `s`: `None`
/// exactly when no primitive reports any hit; otherwise a valid hit of some
/// primitive, carrying that primitive's material index, whose parameter is
/// minimal over every hit any primitive reports.
pub open spec fn spec_obstacle(s: Scene, ray: Ray, r: Option<Intersection>) -> bool {
    match r {
        None => forall|k: int, j: crate::shape::Intersection|
            0 <= k < s.primitives@.len() ==> !(#[trigger] s.primitives@[k].shape.spec_hit_any(
                ray,
                j,
            )),
        Some(si) => {
            &&& si.geom.valid_for(ray)
            &&& si.geom.point.radius_vector.bounded(0x3000_0010)
            &&& si.material_idx < s.materials@.len()
            &&& exists|k: int|
                0 <= k < s.primitives@.len() && (#[trigger] s.primitives@[k].shape.spec_hit_any(
                    ray,
                    si.geom,
                )) && si.material_idx == s.primitives@[k].material_idx
            &&& forall|k: int, j: crate::shape::Intersection|
                0 <= k < s.primitives@.len() && (#[trigger] s.primitives@[k].shape.spec_hit_any(
                    ray,
                    j,
                )) ==> si.geom.t <= j.t
        },
    }
}

/// The secondary ray leaving `from_point` in `direction`, its origin pushed
/// `RAY_OFFSET` raw units along that direction.
pub open spec fn spec_ray_from(from_point: Point, direction: UnitVector) -> Ray {
    Ray {
        origin: Point {
            radius_vector: crate::vector::spec_add(
                from_point.radius_vector,
                crate::vector::spec_scale(direction.direction, RAY_OFFSET as int),
            ),
        },
        direction,
    }
}

/// The point `what` is visible from `from_point`: every hit any primitive
/// reports along the offset shadow ray lies farther than `what`; trivially
/// true when the offset origin already reaches `what`.
pub open spec fn spec_visible(s: Scene, what: Point, from_point: Point) -> bool {
    let ray1 = spec_from_to(from_point, what);
    let start = spec_along(ray1, RAY_OFFSET as int);
    let dist = sqrt_i(spec_diff(from_point.radius_vector, what.radius_vector).norm2());
    if start == what {
        true
    } else {
        let sray = spec_from_to(start, what);
        forall|k: int, j: crate::shape::Intersection|
            0 <= k < s.primitives@.len() && (#[trigger] s.primitives@[k].shape.spec_hit_any(
                sray,
                j,
            )) ==> j.t > dist
    }
}

pub struct Scene {
    pub camera: Camera,
    pub ambient_light: Color,
    pub background_color: Color,
    pub lights: Vec<LightSource>,
    pub primitives: Vec<Primitive>,
    pub materials: Vec<Material>,
}

impl Scene {
    pub open spec fn wf(&self) -> bool {
        &&& self.camera.wf()
        &&& self.ambient_light.wf()
        &&& self.background_color.wf()
        &&& forall|i: int| 0 <= i < self.lights@.len() ==> (#[trigger] self.lights@[i]).wf()
        &&& forall|i: int|
            0 <= i < self.primitives@.len() ==> (#[trigger] self.primitives@[i]).shape.wf()
                && self.primitives@[i].material_idx < self.materials@.len()
        &&& forall|i: int| 0 <= i < self.materials@.len() ==> (#[trigger] self.materials@[i]).wf()
    }

    /// Assembles a scene, rejecting any primitive whose material index is
    /// out of range.
    pub fn new(
        camera: Camera,
        ambient_light: Color,
        background_color: Color,
        lights: Vec<LightSource>,
        primitives: Vec<Primitive>,
        materials: Vec<Material>,
    ) -> (r: Result<Scene, ParseSceneError>)
        requires
            camera.wf(),
            ambient_light.wf(),
            background_color.wf(),
            forall|i: int| 0 <= i < lights@.len() ==> (#[trigger] lights@[i]).wf(),
            forall|i: int| 0 <= i < primitives@.len() ==> (#[trigger] primitives@[i]).shape.wf(),
            forall|i: int| 0 <= i < materials@.len() ==> (#[trigger] materials@[i]).wf(),
        ensures
            match r {
                Ok(s) => {
                    &&& s.wf()
                    &&& s.camera == camera
                    &&& s.ambient_light == ambient_light
                    &&& s.background_color == background_color
                    &&& s.lights@ == lights@
                    &&& s.primitives@ == primitives@
                    &&& s.materials@ == materials@
                    &&& forall|i: int|
                        0 <= i < primitives@.len() ==> (#[trigger] primitives@[i]).material_idx
                            < materials@.len()
                },
                Err(_) => exists|i: int|
                    0 <= i < primitives@.len() && (#[trigger] primitives@[i]).material_idx
                        >= materials@.len(),
            },
    {
        let mut i: usize = 0;
        while i < primitives.len()
            invariant
                i <= primitives@.len(),
                forall|k: int|
                    0 <= k < i ==> (#[trigger] primitives@[k]).material_idx < materials@.len(),
            decreases primitives@.len() - i,
        {
            if primitives[i].material_idx >= materials.len() {
                return Err(
                    ParseSceneError { description: "primitive refers to no material".to_owned() },
                );
            }
            i = i + 1;
        }
        Ok(Scene { camera, ambient_light, background_color, lights, primitives, materials })
    }

    /// The globally nearest hit across all primitives: `None` exactly when
    /// nothing hits; otherwise a hit of some primitive, carrying that
    /// primitive's material, with a minimal parameter over every hit any
    /// primitive reports.
    #[verifier::rlimit(50)]
    pub fn find_obstacle(&self, ray: &Ray) -> (r: Option<Intersection>)
        requires
            self.wf(),
            ray.wf(),
            ray.origin.radius_vector.bounded(0x4000_0000),
        ensures
            spec_obstacle(*self, *ray, r),
    {
        let mut best: Option<Intersection> = None;
        let mut k: usize = 0;
        while k < self.primitives.len()
            invariant
                self.wf(),
                ray.wf(),
                ray.origin.radius_vector.bounded(0x4000_0000),
                k <= self.primitives@.len(),
                match best {
                    None => forall|m: int, j: crate::shape::Intersection|
                        0 <= m < k ==> !(#[trigger] self.primitives@[m].shape.spec_hit_any(
                            *ray,
                            j,
                        )),
                    Some(si) => {
                        &&& si.geom.valid_for(*ray)
                        &&& si.geom.point.radius_vector.bounded(0x3000_0010)
                        &&& si.material_idx < self.materials@.len()
                        &&& exists|m: int|
                            0 <= m < k && (#[trigger] self.primitives@[m].shape.spec_hit_any(
                                *ray,
                                si.geom,
                            )) && si.material_idx == self.primitives@[m].material_idx
                        &&& forall|m: int, j: crate::shape::Intersection|
                            0 <= m < k && (#[trigger] self.primitives@[m].shape.spec_hit_any(
                                *ray,
                                j,
                            )) ==> si.geom.t <= j.t
                    },
                },
            decreases self.primitives@.len() - k,
        {
            let ghost old_best = best;
            let prim = &self.primitives[k];
            let hit = prim.shape.intersect(ray);
            match hit {
                Some(i) => {
                    let replace: bool = match &best {
                        None => true,
                        Some(b) => i.t < b.geom.t,
                    };
                    if replace {
                        best = Some(Intersection { geom: i, material_idx: prim.material_idx });
                    }
                    proof {
                        let si = best->Some_0;
                        assert(self.primitives@[k as int].shape.spec_hit_any(*ray, i));
                        assert(si.geom.t <= i.t);
                        assert forall|m: int, j: crate::shape::Intersection|
                            0 <= m < k + 1 && (
                            #[trigger] self.primitives@[m].shape.spec_hit_any(
                                *ray,
                                j,
                            )) implies si.geom.t <= j.t by {
                            if m == k {
                                assert(i.t <= j.t);
                            } else {
                                match old_best {
                                    Some(ob) => {
                                        assert(ob.geom.t <= j.t);
                                    },
                                    None => {},
                                }
                            }
                        }
                    }
                },
                None => {
                    proof {
                        match best {
                            None => {
                                assert forall|m: int, j: crate::shape::Intersection|
                                    0 <= m < k + 1 implies !(
                                #[trigger] self.primitives@[m].shape.spec_hit_any(
                                    *ray,
                                    j,
                                )) by {}
                            },
                            Some(si) => {
                                assert forall|m: int, j: crate::shape::Intersection|
                                    0 <= m < k + 1 && (
                                #[trigger] self.primitives@[m].shape.spec_hit_any(
                                    *ray,
                                    j,
                                )) implies si.geom.t <= j.t by {
                                    if m == k {
                                    }
                                }
                            },
                        }
                    }
                },
            }
            k = k + 1;
        }
        best
    }

    /// Builds the secondary ray leaving a hit point: the origin is pushed
    /// `RAY_OFFSET` raw units along the new direction.
    pub fn ray_from(&self, from: &Intersection, direction: UnitVector) -> (r: Ray)
        requires
            direction.wf(),
            from.geom.point.radius_vector.bounded(0x3000_0010),
        ensures
            r == spec_ray_from(from.geom.point, direction),
            r.wf(),
            r.origin.radius_vector.bounded(0x3000_0010 + RAY_OFFSET),
    {
        let step = direction.scale(RAY_OFFSET);
        Ray { origin: from.geom.point.add(step), direction }
    }

    /// Whether the point `what` (a light position) is visible from a hit
    /// point: true exactly when every hit along the shadow ray lies farther
    /// than the light (or the offset origin already reaches the light).
    pub fn is_visible(&self, what: Point, from: &Intersection) -> (r: bool)
        requires
            self.wf(),
            what.wf(),
            from.geom.point.radius_vector.bounded(0x3000_0010),
            from.geom.point != what,
        ensures
            r == spec_visible(*self, what, from.geom.point),
    {
        let ray1 = Ray::from_to(from.geom.point, what);
        let start = ray1.along(RAY_OFFSET);
        proof {
            let d = ray1.direction.direction;
            crate::vector::lemma_unit_scale_bound(
                d.x as int,
                RAY_OFFSET as int,
                crate::math::div_t(d.x * RAY_OFFSET, crate::SCALE as int),
            );
            crate::vector::lemma_unit_scale_bound(
                d.y as int,
                RAY_OFFSET as int,
                crate::math::div_t(d.y * RAY_OFFSET, crate::SCALE as int),
            );
            crate::vector::lemma_unit_scale_bound(
                d.z as int,
                RAY_OFFSET as int,
                crate::math::div_t(d.z * RAY_OFFSET, crate::SCALE as int),
            );
            assert(start.radius_vector.bounded(0x3000_0010 + RAY_OFFSET));
        }
        if start.x() == what.x() && start.y() == what.y() && start.z() == what.z() {
            proof {
                assert(start == what);
            }
            return true;
        }
        let sray = Ray::from_to(start, what);
        let v = from.geom.point.sub(what);
        let dist: i64 = v.length();
        proof {
            lemma_sqrt_unique(v.norm2(), dist as int);
        }
        match self.find_obstacle(&sray) {
            None => true,
            Some(i) => i.geom.t > dist,
        }
    }
}

} // verus!
