//! The spatial index against brute force, the camera, and whole-scene
//! rendering behavior.

use rustraytracer::camera::{Camera, ScreenPoint};
use rustraytracer::color::Color;
use rustraytracer::light::{LightKind, LightSource};
use rustraytracer::material::{ConstTextute, Material, TextureKind};
use rustraytracer::mesh::Mesh;
use rustraytracer::point::Point;
use rustraytracer::ray::Ray;
use rustraytracer::rendering::Tracer;
use rustraytracer::sampler::{SamplerConfig, StratifiedSampler};
use rustraytracer::scene::{Primitive, Scene, ShapeKind};
use rustraytracer::sphere::Sphere;
use rustraytracer::triangle::Triangle;
use rustraytracer::vector::Vector;
use rustraytracer::SCALE;

fn lcg(state: &mut u64) -> u64 {
    *state = state
        .wrapping_mul(6364136223846793005)
        .wrapping_add(1442695040888963407);
    *state >> 16
}

fn fp(x: f64) -> i64 {
    (x * SCALE as f64).round() as i64
}

fn p(x: f64, y: f64, z: f64) -> Point {
    Point::new(fp(x), fp(y), fp(z))
}

fn frac(state: &mut u64) -> f64 {
    (lcg(state) % 10_000) as f64 / 10_000.0
}

fn random_triangles(st: &mut u64, n: usize) -> Vec<Triangle> {
    let mut tris = Vec::new();
    while tris.len() < n {
        let a = p(
            frac(st) * 4.0 - 2.0,
            frac(st) * 4.0 - 2.0,
            frac(st) * 4.0 - 2.0,
        );
        let b = p(
            a.x() as f64 / SCALE as f64 + frac(st) - 0.5,
            a.y() as f64 / SCALE as f64 + frac(st) - 0.5,
            a.z() as f64 / SCALE as f64 + frac(st) - 0.5,
        );
        let c = p(
            a.x() as f64 / SCALE as f64 + frac(st) - 0.5,
            a.y() as f64 / SCALE as f64 + frac(st) - 0.5,
            a.z() as f64 / SCALE as f64 + frac(st) - 0.5,
        );
        if Triangle::are_valid_points(a, b, c) {
            tris.push(Triangle::new(a, b, c));
        }
    }
    tris
}

#[test]
fn bvh_matches_brute_force() {
    let mut st: u64 = 31;
    let tris = random_triangles(&mut st, 60);
    let mesh = Mesh::new(tris.clone());
    for _ in 0..200 {
        let from = p(
            frac(&mut st) * 12.0 - 6.0,
            frac(&mut st) * 12.0 - 6.0,
            frac(&mut st) * 12.0 - 6.0,
        );
        let to = p(
            frac(&mut st) * 2.0 - 1.0,
            frac(&mut st) * 2.0 - 1.0,
            frac(&mut st) * 2.0 - 1.0,
        );
        if from == to {
            continue;
        }
        let ray = Ray::from_to(from, to);
        let via_index = mesh.intersect(&ray);
        // brute force: the minimum over a linear scan of every triangle
        let mut brute: Option<i64> = None;
        for t in &tris {
            if let Some(i) = t.intersect(&ray) {
                brute = Some(match brute {
                    None => i.t,
                    Some(b) => {
                        if i.t < b {
                            i.t
                        } else {
                            b
                        }
                    }
                });
            }
        }
        match (via_index, brute) {
            (None, None) => {}
            (Some(i), Some(bt)) => assert_eq!(i.t, bt),
            (a, b) => panic!("index {:?} vs brute {:?}", a.map(|i| i.t), b),
        }
    }
}

#[test]
fn test_ray_casting() {
    let cam = Camera::looking_at(
        p(-10.0, 0.0, 0.0),
        p(0.0, 0.0, 0.0),
        fp(10.0),
        Vector::new(0, 0, SCALE).direction(),
        fp(6.4),
        fp(4.8),
    )
    .expect("camera construction");
    let mut st: u64 = 37;
    for _ in 0..200 {
        let x = fp(frac(&mut st) * 2.0 - 1.0);
        let y = fp(frac(&mut st) * 2.0 - 1.0);
        let ray = cam.cast_ray(ScreenPoint::new(x, y));
        let reached = ray.along(fp(10.0));
        assert!(-fp(1.0) < reached.x() && reached.x() < fp(1.0));
        let sx = reached.y();
        let sy = reached.z();
        assert!(-fp(3.3) < sx && sx < fp(3.3), "x {}", sx);
        assert!(-fp(2.5) < sy && sy < fp(2.5), "y {}", sy);
    }
}

fn single_sphere_scene(ambient: Color, reflectance: i64) -> Scene {
    let camera = Camera::looking_at(
        p(-10.0, 0.0, 0.0),
        p(0.0, 0.0, 0.0),
        fp(10.0),
        Vector::new(0, 0, SCALE).direction(),
        fp(6.4),
        fp(4.8),
    )
    .expect("camera construction");
    let surface = Color::new(fp(0.9), fp(0.5), fp(0.5));
    let material = Material {
        color: TextureKind::Const(ConstTextute(surface)),
        diffuse: fp(0.8),
        specular: 30,
        reflectance,
    };
    let light = LightSource::new(
        Color::new(fp(1.0), fp(1.0), fp(1.0)),
        fp(1.0),
        p(6.0, 5.0, 5.0),
        LightKind::PointLight,
    );
    let sphere = Sphere::new(p(0.0, 0.0, 0.0), fp(1.0));
    let primitives = vec![Primitive::new(ShapeKind::Sphere(sphere), 0)];
    Scene::new(
        camera,
        ambient,
        Color::new(fp(0.05), fp(0.05), fp(0.2)),
        vec![light],
        primitives,
        vec![material],
    )
    .map_err(|e| e.description)
    .expect("scene assembly")
}

#[test]
fn single_sphere_end_to_end() {
    let ambient = Color::new(fp(0.2), fp(0.2), fp(0.2));
    let scene = single_sphere_scene(ambient, 0);
    let background = scene.background_color;
    let surface = Color::new(fp(0.9), fp(0.5), fp(0.5));
    // the floor every sphere pixel must reach: the ambient term alone
    let ambient_term = surface.mul(ambient);
    let sampler = StratifiedSampler::new(
        [24, 18],
        SamplerConfig::Stratified {
            samples_per_pixel: 1,
            jitter: false,
        },
    );
    let tracer = Tracer::new(scene, sampler, 1);
    let samples = tracer.sampler.sample();
    let shaded = tracer.render_samples(&samples);
    let mut sphere_pixels: u32 = 0;
    let mut background_pixels: u32 = 0;
    for (_, color) in &shaded {
        assert!(color.r >= 0 && color.g >= 0 && color.b >= 0);
        if *color == background {
            background_pixels += 1;
        } else {
            sphere_pixels += 1;
            assert!(color.r >= ambient_term.r);
            assert!(color.g >= ambient_term.g);
            assert!(color.b >= ambient_term.b);
        }
    }
    assert!(sphere_pixels > 10, "sphere pixels: {}", sphere_pixels);
    assert!(background_pixels > 10, "background pixels: {}", background_pixels);
}

#[test]
fn reflection_depth_is_bounded() {
    // a perfectly reflective sphere: the recursion must stop at the
    // configured depth and still produce a valid color
    let ambient = Color::new(fp(0.2), fp(0.2), fp(0.2));
    let scene = single_sphere_scene(ambient, fp(1.0));
    let sampler = StratifiedSampler::new(
        [8, 8],
        SamplerConfig::Stratified {
            samples_per_pixel: 1,
            jitter: false,
        },
    );
    let tracer = Tracer::new(scene, sampler, 8);
    let ray = Ray::from_to(p(-10.0, 0.0, 0.0), p(0.0, 0.0, 0.0));
    let c = tracer.radiace(&ray, 0);
    assert!(c.r >= 0 && c.g >= 0 && c.b >= 0);
    // at the depth limit no reflection is added: the same ray shaded at the
    // limit equals the zero-reflectance shading
    let plain_scene = single_sphere_scene(ambient, 0);
    let plain = Tracer::new(plain_scene, sampler, 8);
    let at_limit = tracer.radiace(&ray, 8);
    let unreflective = plain.radiace(&ray, 0);
    assert_eq!(at_limit, unreflective);
}
