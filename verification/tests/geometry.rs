//! Ray, plane, sphere and triangle behavior on concrete scenes.

use rustraytracer::point::Point;
use rustraytracer::plane::Plane;
use rustraytracer::ray::Ray;
use rustraytracer::sphere::Sphere;
use rustraytracer::triangle::Triangle;
use rustraytracer::vector::Vector;
use rustraytracer::SCALE;

fn lcg(state: &mut u64) -> u64 {
    *state = state
        .wrapping_mul(6364136223846793005)
        .wrapping_add(1442695040888963407);
    *state >> 16
}

/// A fixed-point value for a small real number.
fn fp(x: f64) -> i64 {
    (x * SCALE as f64).round() as i64
}

fn p(x: f64, y: f64, z: f64) -> Point {
    Point::new(fp(x), fp(y), fp(z))
}

/// A pseudo-random fraction in [0, 1).
fn frac(state: &mut u64) -> f64 {
    (lcg(state) % 10_000) as f64 / 10_000.0
}

#[test]
fn alog_inverse_from_to() {
    let mut st: u64 = 11;
    for _ in 0..500 {
        let from = p(
            frac(&mut st) * 10.0 - 5.0,
            frac(&mut st) * 10.0 - 5.0,
            frac(&mut st) * 10.0 - 5.0,
        );
        let to = p(
            frac(&mut st) * 10.0 - 5.0,
            frac(&mut st) * 10.0 - 5.0,
            frac(&mut st) * 10.0 - 5.0,
        );
        if from == to {
            continue;
        }
        let ray = Ray::from_to(from, to);
        let d = from.sub(to);
        let t = d.length();
        let reached = ray.along(t);
        assert!(to.sub(reached).is_almost_zero());
    }
}

#[test]
fn test_plane_intersection() {
    let plane = Plane::new(p(0.0, 0.0, 0.0), Vector::new(SCALE, 0, 0).direction());
    let ray_origin = p(10.0, 3.0, 4.0);
    let mut st: u64 = 13;
    let mut hits: u32 = 0;
    for _ in 0..300 {
        let target = p(frac(&mut st), frac(&mut st), frac(&mut st));
        if target == ray_origin {
            continue;
        }
        let ray = Ray::from_to(ray_origin, target);
        match plane.intersect(&ray) {
            None => panic!("a ray toward the plane missed it"),
            Some(i) => {
                hits += 1;
                assert!(i.point.x().abs() < fp(0.001), "off plane: {}", i.point.x());
            }
        }
    }
    assert!(hits > 10);
}

#[test]
fn hit_on_sphere() {
    let center = p(0.0, 0.0, 0.0);
    let radius = fp(0.5);
    let sphere = Sphere::new(center, radius);
    let from = p(-10.0, 0.0, 0.0);
    let mut st: u64 = 17;
    let mut hits: u32 = 0;
    let mut misses: u32 = 0;
    for _ in 0..500 {
        let to = p(0.0, frac(&mut st) * 2.0 - 1.0, frac(&mut st) * 2.0 - 1.0);
        let ray = Ray::from_to(from, to);
        match sphere.intersect(&ray) {
            None => misses += 1,
            Some(i) => {
                hits += 1;
                // the hit point lies on the sphere
                let d = center.sub(i.point).length();
                assert!(
                    (d - radius).abs() < fp(0.01),
                    "distance from center: {} vs {}",
                    d,
                    radius
                );
                // and on the ray: walking the hit parameter reaches it
                let q = ray.along(i.t);
                assert!(q.sub(i.point).is_almost_zero());
            }
        }
    }
    assert!(hits > 1);
    assert!(misses > 1);
}

#[test]
fn test_triangle_intersection() {
    let t1 = Triangle::new(p(0.0, -1.0, -1.0), p(0.0, -1.0, 1.0), p(0.0, 1.0, 1.0));
    let t2 = Triangle::new(p(0.0, 1.0, 1.0), p(0.0, 1.0, -1.0), p(0.0, -1.0, -1.0));
    let origin = p(-1.0, 0.0, 0.0);
    let mut t1_hits: u32 = 0;
    let mut t2_hits: u32 = 0;
    let mut st: u64 = 19;
    for _ in 0..400 {
        // interior points of the square, away from the shared diagonal and
        // the edges
        let mut y = frac(&mut st) * 1.8 - 0.9;
        let z = frac(&mut st) * 1.8 - 0.9;
        if (y - z).abs() < 0.01 {
            y += 0.05;
        }
        if y.abs() < 0.01 || z.abs() < 0.01 || (y - z).abs() < 0.01 || y > 0.95 {
            continue;
        }
        let ray = Ray::from_to(origin, p(0.0, y, z));
        let i1 = t1.intersect(&ray);
        let i2 = t2.intersect(&ray);
        assert!(
            (i1.is_some() || i2.is_some()) && !(i1.is_some() && i2.is_some()),
            "y={} z={} t1={} t2={}",
            y,
            z,
            i1.is_some(),
            i2.is_some()
        );
        if i1.is_some() {
            t1_hits += 1;
        }
        if i2.is_some() {
            t2_hits += 1;
        }
    }
    assert!(t1_hits > 10);
    assert!(t2_hits > 10);
}

#[test]
fn triangle_bounding_box() {
    let mut hits: u32 = 0;
    let mut missmisses: u32 = 0;
    let mut st: u64 = 23;
    for _ in 0..3000 {
        let a = p(
            frac(&mut st) * 2.0 - 1.0,
            frac(&mut st) * 2.0 - 1.0,
            frac(&mut st) * 2.0 - 1.0,
        );
        let b = p(
            frac(&mut st) * 2.0 - 1.0,
            frac(&mut st) * 2.0 - 1.0,
            frac(&mut st) * 2.0 - 1.0,
        );
        let c = p(
            frac(&mut st) * 2.0 - 1.0,
            frac(&mut st) * 2.0 - 1.0,
            frac(&mut st) * 2.0 - 1.0,
        );
        if !Triangle::are_valid_points(a, b, c) {
            continue;
        }
        let target = Triangle::new(a, b, c);
        let o = frac(&mut st) * 3.0;
        let origin = p(o, 0.0, 0.0);
        let aim = p(0.0, frac(&mut st), frac(&mut st));
        if origin == aim {
            continue;
        }
        let ray = Ray::from_to(origin, aim);
        match target.intersect(&ray) {
            Some(i) => {
                // the box through which the ray found the hit reports the
                // intersection up to that distance
                assert!(target.bound().is_intersected(&ray, i.t + fp(0.001)));
                hits += 1;
            }
            None => {
                if !target.bound().is_intersected(&ray, fp(1000.0)) {
                    missmisses += 1;
                }
            }
        }
    }
    assert!(hits > 1);
    assert!(missmisses > 1);
}
