//! The integrator: per-sample radiance with ambient, diffuse and specular
//! terms, plus depth-limited recursive specular reflection.
//!
//! `colorize` computes exactly `spec_shading`: the ambient term plus, for
//! every visible light, the diffuse and specular terms. `radiace` satisfies
//! the recursion relation `spec_radiance_rel`: the background color on a
//! miss, and on a hit the shading plus the reflectance-scaled radiance of
//! the mirror ray, cut off at the depth limit. Termination of the
//! reflection recursion is machine-checked: `radiace` decreases
//! `n_reflections - level`, so a path spawns at most `n_reflections`
//! nested reflection rays and then stops.

use crate::color::{spec_color_add, spec_color_mul, spec_color_scale, Color};
use crate::material::Material;
use crate::math::{div_t, fixpow, spec_fixpow};
use crate::ray::Ray;
use crate::sampler::{Sample, StratifiedSampler};
use crate::scene::{spec_obstacle, spec_ray_from, spec_visible, Intersection, Scene};
use crate::vector::{spec_diff, spec_direction, spec_reflect, UnitVector, Vector};
use crate::SCALE;
use vstd::prelude::*;

verus! {

/// `max(0, -a . b)` over two approximately-unit vectors, divided back to
/// one fixed-point unit and clamped into `[0, SCALE]`.
pub open spec fn spec_clamped_neg_cos(a: Vector, b: Vector) -> int {
    let d = a.x * b.x + a.y * b.y + a.z * b.z;
    if -d >= 0 {
        let c = div_t(-d, SCALE as int);
        if c > SCALE as int {
            SCALE as int
        } else {
            c
        }
    } else {
        0
    }
}

/// The ambient term owed at a hit: the surface color at the hit point
/// under the scene's ambient light.
pub open spec fn spec_ambient_term(scene: Scene, intersection: Intersection) -> Color {
    spec_color_mul(
        scene.materials@[intersection.material_idx as int].color.spec_color_at(intersection.geom),
        scene.ambient_light,
    )
}

/// The diffuse term of one light: the surface color under the light's
/// illumination, weighted by the incidence cosine and the material's
/// diffuse coefficient.
pub open spec fn spec_diffuse_term(
    material: Material,
    geom: crate::shape::Intersection,
    illumination: Color,
    light_direction: UnitVector,
) -> Color {
    let cos = spec_clamped_neg_cos(light_direction.direction, geom.normal.direction);
    let k = div_t(cos * material.diffuse, SCALE as int);
    spec_color_scale(spec_color_mul(material.color.spec_color_at(geom), illumination), k)
}

/// The specular term of one light: its illumination weighted by the
/// reflection cosine raised to the material's specular exponent.
pub open spec fn spec_specular_term(
    material: Material,
    illumination: Color,
    light_direction: UnitVector,
    view_direction: UnitVector,
    normal: UnitVector,
) -> Color {
    let reflected = spec_reflect(light_direction, normal);
    let cos = spec_clamped_neg_cos(reflected.direction, view_direction.direction);
    spec_color_scale(illumination, spec_fixpow(cos, material.specular as nat))
}

/// Local shading over the first `n` lights: the ambient term plus, for
/// every light that does not sit on the hit point and is visible from it,
/// the diffuse and specular terms.
pub open spec fn spec_shading(
    scene: Scene,
    view_direction: UnitVector,
    intersection: Intersection,
    n: int,
) -> Color
    decreases n,
{
    if n <= 0 {
        spec_ambient_term(scene, intersection)
    } else {
        let prev = spec_shading(scene, view_direction, intersection, n - 1);
        let light = scene.lights@[n - 1];
        let hp = intersection.geom.point;
        if light.position == hp {
            prev
        } else if !spec_visible(scene, light.position, hp) {
            prev
        } else {
            let material = scene.materials@[intersection.material_idx as int];
            let light_direction = UnitVector {
                direction: spec_direction(
                    spec_diff(hp.radius_vector, light.position.radius_vector),
                ),
            };
            let illumination = crate::light::spec_illuminate(light, hp);
            spec_color_add(
                spec_color_add(
                    prev,
                    spec_diffuse_term(material, intersection.geom, illumination, light_direction),
                ),
                spec_specular_term(
                    material,
                    illumination,
                    light_direction,
                    view_direction,
                    intersection.geom.normal,
                ),
            )
        }
    }
}

/// `r` is a correct radiance for `ray` at recursion depth `level`: the
/// background color when the nearest-obstacle query answers `None`; for a
/// hit, `spec_radiance_hit` below. The hit is existential because
/// equal-distance obstacles leave the query a choice; everything after
/// that choice is pinned.
pub open spec fn spec_radiance_rel(
    scene: Scene,
    n_reflections: u32,
    ray: Ray,
    level: int,
    r: Color,
) -> bool
    decreases n_reflections - level, 1int,
{
    ||| (spec_obstacle(scene, ray, None) && r == scene.background_color)
    ||| (exists|si: Intersection|
        (#[trigger] spec_obstacle(scene, ray, Some(si))) && spec_radiance_hit(
            scene,
            n_reflections,
            ray,
            level,
            si,
            r,
        ))
}

/// The hit case of the radiance relation: the full shading of `si` plus —
/// below the depth limit and for a reflective material — the
/// reflectance-scaled radiance of the mirror ray, and nothing more
/// otherwise.
pub open spec fn spec_radiance_hit(
    scene: Scene,
    n_reflections: u32,
    ray: Ray,
    level: int,
    si: Intersection,
    r: Color,
) -> bool
    decreases n_reflections - level, 0int,
{
    let arrived = spec_shading(scene, ray.direction, si, scene.lights@.len() as int);
    let reflectance = scene.materials@[si.material_idx as int].reflectance;
    if level < n_reflections && reflectance > 0 {
        let refl_dir = spec_reflect(ray.direction, si.geom.normal);
        let reflected_ray = spec_ray_from(si.geom.point, refl_dir);
        exists|sub: Color|
            #![trigger spec_color_scale(sub, reflectance as int)]
            spec_radiance_rel(scene, n_reflections, reflected_ray, level + 1, sub) && r
                == spec_color_add(arrived, spec_color_scale(sub, reflectance as int))
    } else {
        r == spec_color_add(arrived, Color { r: 0, g: 0, b: 0 })
    }
}

/// Assembles the hit case of the radiance relation from its ingredients:
/// a chosen obstacle, the exact shading, and a reflected contribution that
/// is either a related sub-radiance scaled by the reflectance or zero.
proof fn lemma_radiance_hit(
    scene: Scene,
    n_reflections: u32,
    ray: Ray,
    level: int,
    si: Intersection,
    arrived: Color,
    reflected: Color,
    r: Color,
)
    requires
        spec_obstacle(scene, ray, Some(si)),
        arrived == spec_shading(scene, ray.direction, si, scene.lights@.len() as int),
        ({
            let reflectance = scene.materials@[si.material_idx as int].reflectance;
            if level < n_reflections && reflectance > 0 {
                exists|sub: Color|
                    (#[trigger] spec_radiance_rel(
                        scene,
                        n_reflections,
                        spec_ray_from(si.geom.point, spec_reflect(ray.direction, si.geom.normal)),
                        level + 1,
                        sub,
                    )) && reflected == spec_color_scale(sub, reflectance as int)
            } else {
                reflected == (Color { r: 0, g: 0, b: 0 })
            }
        }),
        r == spec_color_add(arrived, reflected),
    ensures
        spec_radiance_rel(scene, n_reflections, ray, level, r),
{
    let reflectance = scene.materials@[si.material_idx as int].reflectance;
    if level < n_reflections && reflectance > 0 {
        let sub = choose|sub: Color|
            (#[trigger] spec_radiance_rel(
                scene,
                n_reflections,
                spec_ray_from(si.geom.point, spec_reflect(ray.direction, si.geom.normal)),
                level + 1,
                sub,
            )) && reflected == spec_color_scale(sub, reflectance as int);
        assert(r == spec_color_add(arrived, spec_color_scale(sub, reflectance as int)));
        assert(spec_radiance_hit(scene, n_reflections, ray, level, si, r));
    } else {
        assert(spec_radiance_hit(scene, n_reflections, ray, level, si, r));
    }
    assert(spec_radiance_rel(scene, n_reflections, ray, level, r));
}

pub struct Tracer {
    pub scene: Scene,
    pub sampler: StratifiedSampler,
    pub n_reflections: u32,
}

impl Tracer {
    pub open spec fn wf(&self) -> bool {
        &&& self.scene.wf()
        &&& self.sampler.wf()
    }

    pub fn new(scene: Scene, sampler: StratifiedSampler, n_reflections: u32) -> (r: Tracer)
        requires
            scene.wf(),
            sampler.wf(),
        ensures
            r.wf(),
            r.scene == scene,
            r.sampler == sampler,
            r.n_reflections == n_reflections,
    {
        Tracer { scene, sampler, n_reflections }
    }

    /// Renders one batch of samples: casts the primary ray for each sample
    /// and evaluates its radiance at depth zero. Each result pairs the
    /// sample with a color related to its primary ray by the radiance
    /// relation.
    pub fn render_samples(&self, samples: &Vec<Sample>) -> (r: Vec<(Sample, Color)>)
        requires
            self.wf(),
            forall|i: int|
                0 <= i < samples@.len() ==> -SCALE <= (#[trigger] samples@[i]).pixel.x <= SCALE
                    && -SCALE <= samples@[i].pixel.y <= SCALE,
        ensures
            r@.len() == samples@.len(),
            forall|i: int|
                0 <= i < r@.len() ==> (#[trigger] r@[i]).1.wf() && r@[i].0 == samples@[i]
                    && spec_radiance_rel(
                    self.scene,
                    self.n_reflections,
                    crate::camera::spec_cast_ray(self.scene.camera, samples@[i].pixel),
                    0,
                    r@[i].1,
                ),
    {
        let mut r: Vec<(Sample, Color)> = Vec::new();
        let mut i: usize = 0;
        while i < samples.len()
            invariant
                self.wf(),
                i <= samples@.len(),
                r@.len() == i,
                forall|k: int|
                    0 <= k < samples@.len() ==> -SCALE <= (#[trigger] samples@[k]).pixel.x <= SCALE
                        && -SCALE <= samples@[k].pixel.y <= SCALE,
                forall|k: int|
                    0 <= k < r@.len() ==> (#[trigger] r@[k]).1.wf() && r@[k].0 == samples@[k]
                        && spec_radiance_rel(
                        self.scene,
                        self.n_reflections,
                        crate::camera::spec_cast_ray(self.scene.camera, samples@[k].pixel),
                        0,
                        r@[k].1,
                    ),
            decreases samples@.len() - i,
        {
            let s = samples[i];
            let ray = self.scene.camera.cast_ray(s.pixel);
            let c = self.radiace(&ray, 0);
            r.push((s, c));
            i = i + 1;
        }
        r
    }

    /// The radiance arriving along `ray`: exactly a value related to the
    /// ray by `spec_radiance_rel` — the background color on a miss, the
    /// shading plus depth-limited attenuated mirror radiance on a hit.
    #[verifier::rlimit(100)]
    pub fn radiace(&self, ray: &Ray, level: u32) -> (r: Color)
        requires
            self.wf(),
            ray.wf(),
            ray.origin.radius_vector.bounded(0x4000_0000),
        ensures
            r.wf(),
            spec_radiance_rel(self.scene, self.n_reflections, *ray, level as int, r),
        decreases self.n_reflections - level,
    {
        match self.scene.find_obstacle(ray) {
            Some(intersection) => {
                let ghost si = intersection;
                let ghost reflectance = self.scene.materials@[si.material_idx as int].reflectance;
                let arrived_light = self.colorize(ray.direction, &intersection);
                let material = &self.scene.materials[intersection.material_idx];
                let has_reflection = level < self.n_reflections && material.reflectance > 0;
                let reflected_light = if has_reflection {
                    let refl_dir = ray.direction.reflect(intersection.geom.normal);
                    let reflected_ray = self.scene.ray_from(&intersection, refl_dir);
                    let sub = self.radiace(&reflected_ray, level + 1);
                    let scaled = sub.scale(material.reflectance);
                    proof {
                        assert(reflected_ray == spec_ray_from(
                            si.geom.point,
                            spec_reflect(ray.direction, si.geom.normal),
                        ));
                        assert(spec_radiance_rel(
                            self.scene,
                            self.n_reflections,
                            spec_ray_from(si.geom.point, spec_reflect(ray.direction, si.geom.normal)),
                            level as int + 1,
                            sub,
                        ));
                        assert(scaled == spec_color_scale(sub, reflectance as int));
                    }
                    scaled
                } else {
                    Color::new(0, 0, 0)
                };
                proof {
                    if level < self.n_reflections && reflectance > 0 {
                        assert(exists|sub: Color|
                            (#[trigger] spec_radiance_rel(
                                self.scene,
                                self.n_reflections,
                                spec_ray_from(
                                    si.geom.point,
                                    spec_reflect(ray.direction, si.geom.normal),
                                ),
                                level as int + 1,
                                sub,
                            )) && reflected_light == spec_color_scale(sub, reflectance as int));
                    } else {
                        assert(reflected_light == (Color { r: 0, g: 0, b: 0 }));
                    }
                }
                let r = arrived_light.add(reflected_light);
                proof {
                    lemma_radiance_hit(
                        self.scene,
                        self.n_reflections,
                        *ray,
                        level as int,
                        si,
                        arrived_light,
                        reflected_light,
                        r,
                    );
                }
                r
            },
            None => self.scene.background_color,
        }
    }

    /// Local shading at a hit: exactly `spec_shading` over all the scene's
    /// lights. Every channel is at least the ambient term: light only ever
    /// adds radiance.
    pub fn colorize(&self, view_direction: UnitVector, intersection: &Intersection) -> (r: Color)
        requires
            self.wf(),
            view_direction.wf(),
            intersection.geom.normal.wf(),
            intersection.geom.point.radius_vector.bounded(0x3000_0010),
            intersection.material_idx < self.scene.materials@.len(),
        ensures
            r == spec_shading(
                self.scene,
                view_direction,
                *intersection,
                self.scene.lights@.len() as int,
            ),
            r.wf(),
            r.r >= spec_ambient_term(self.scene, *intersection).r,
            r.g >= spec_ambient_term(self.scene, *intersection).g,
            r.b >= spec_ambient_term(self.scene, *intersection).b,
    {
        let material = &self.scene.materials[intersection.material_idx];
        let mut result = colorize_ambient(material, intersection, self.scene.ambient_light);
        let mut i: usize = 0;
        while i < self.scene.lights.len()
            invariant
                self.wf(),
                view_direction.wf(),
                intersection.geom.normal.wf(),
                intersection.geom.point.radius_vector.bounded(0x3000_0010),
                intersection.material_idx < self.scene.materials@.len(),
                i <= self.scene.lights@.len(),
                result == spec_shading(self.scene, view_direction, *intersection, i as int),
                result.wf(),
                result.r >= spec_ambient_term(self.scene, *intersection).r,
                result.g >= spec_ambient_term(self.scene, *intersection).g,
                result.b >= spec_ambient_term(self.scene, *intersection).b,
            decreases self.scene.lights@.len() - i,
        {
            let light = &self.scene.lights[i];
            let lp = light.position();
            let hp = intersection.geom.point;
            let distinct = !(lp.x() == hp.x() && lp.y() == hp.y() && lp.z() == hp.z());
            if distinct {
                proof {
                    assert(lp != hp);
                }
                if self.scene.is_visible(lp, intersection) {
                    let light_direction = lp.direction_to(hp);
                    let illumination = light.illuminate(hp);
                    let material2 = &self.scene.materials[intersection.material_idx];
                    proof {
                        assert(light_direction == (UnitVector {
                            direction: spec_direction(
                                spec_diff(hp.radius_vector, lp.radius_vector),
                            ),
                        }));
                    }
                    result = result.add(
                        colorize_diffuse(material2, intersection, illumination, light_direction),
                    ).add(
                        colorize_specular(
                            material2,
                            illumination,
                            light_direction,
                            view_direction,
                            intersection.geom.normal,
                        ),
                    );
                }
            } else {
                proof {
                    assert(lp == hp);
                }
            }
            i = i + 1;
        }
        result
    }
}

/// The ambient term: the surface color under the ambient light.
fn colorize_ambient(material: &Material, intersection: &Intersection, illumination: Color) -> (r:
    Color)
    requires
        material.wf(),
        illumination.wf(),
        intersection.geom.point.radius_vector.bounded(0x4000_0000),
    ensures
        r == spec_color_mul(material.color.spec_color_at(intersection.geom), illumination),
        r.wf(),
{
    material.color.color_at(&intersection.geom).mul(illumination)
}

/// The diffuse term: the surface color under the light, weighted by the
/// incidence cosine and the material's diffuse coefficient.
fn colorize_diffuse(
    material: &Material,
    intersection: &Intersection,
    illumination: Color,
    light_direction: UnitVector,
) -> (r: Color)
    requires
        material.wf(),
        illumination.wf(),
        light_direction.wf(),
        intersection.geom.normal.wf(),
        intersection.geom.point.radius_vector.bounded(0x4000_0000),
    ensures
        r == spec_diffuse_term(*material, intersection.geom, illumination, light_direction),
        r.wf(),
{
    let cos = clamped_neg_cos(light_direction, intersection.geom.normal);
    let k = crate::math::fixmul_unit(cos, material.diffuse);
    material.color.color_at(&intersection.geom).mul(illumination).scale(k)
}

/// The specular term: the light's color weighted by the reflection cosine
/// raised to the material's specular exponent.
fn colorize_specular(
    material: &Material,
    illumination: Color,
    light_direction: UnitVector,
    view_direction: UnitVector,
    normal: UnitVector,
) -> (r: Color)
    requires
        material.wf(),
        illumination.wf(),
        light_direction.wf(),
        view_direction.wf(),
        normal.wf(),
    ensures
        r == spec_specular_term(*material, illumination, light_direction, view_direction, normal),
        r.wf(),
{
    let reflected = light_direction.reflect(normal);
    let cos = clamped_neg_cos(reflected, view_direction);
    let k = fixpow(cos, material.specular);
    illumination.scale(k)
}

/// `max(0, -a . b)` over two approximately-unit vectors, clamped into the
/// fixed-point unit interval.
fn clamped_neg_cos(a: UnitVector, b: UnitVector) -> (r: i64)
    requires
        a.wf(),
        b.wf(),
    ensures
        r == spec_clamped_neg_cos(a.direction, b.direction),
        0 <= r <= SCALE,
{
    proof {
        crate::sphere::lemma_dot3_bound(a.direction, b.direction, SCALE as int, SCALE as int);
        assert(3 * (SCALE as int) * (SCALE as int) == 3 * 65536 * 65536int) by (nonlinear_arith)
            requires
                SCALE == 65536,
        ;
    }
    let d: i64 = a.dot_unit(b);
    let neg: i64 = -d;
    let cos: i64 = if neg >= 0 {
        crate::math::sdiv(neg, SCALE)
    } else {
        0
    };
    proof {
        if -(d as int) >= 0 {
            crate::math::lemma_div_t_bounds(neg as int, SCALE as int);
            assert(0 <= cos) by (nonlinear_arith)
                requires
                    cos == crate::math::div_t(neg as int, SCALE as int),
                    neg >= 0,
                    65536 * (cos as int) >= neg - 65535,
                    65536 * (cos as int) <= neg,
            ;
        }
    }
    if cos > SCALE {
        SCALE
    } else {
        cos
    }
}

} // verus!
