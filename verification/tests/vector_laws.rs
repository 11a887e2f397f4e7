//! Algebraic laws of the fixed-point vector type, exercised on a spread of
//! pseudo-random values.

use rustraytracer::vector::Vector;
use rustraytracer::SCALE;

fn lcg(state: &mut u64) -> u64 {
    *state = state
        .wrapping_mul(6364136223846793005)
        .wrapping_add(1442695040888963407);
    *state >> 16
}

/// A pseudo-random coordinate within about 20 world units.
fn coord(state: &mut u64) -> i64 {
    (lcg(state) % (40 * SCALE as u64)) as i64 - 20 * SCALE
}

fn rand_vector(state: &mut u64) -> Vector {
    Vector::new(coord(state), coord(state), coord(state))
}

#[test]
fn addition_commutative() {
    let mut st: u64 = 1;
    for _ in 0..1000 {
        let a = rand_vector(&mut st);
        let b = rand_vector(&mut st);
        let l = a.add(b);
        let r = b.add(a);
        assert!(l.is_almost_eq(r));
        assert_eq!(l, r);
    }
}

#[test]
fn subtraction_is_inverse() {
    let mut st: u64 = 2;
    for _ in 0..1000 {
        let a = rand_vector(&mut st);
        assert!(a.sub(a).is_almost_zero());
    }
}

#[test]
fn cross_with_self_is_zero() {
    let mut st: u64 = 3;
    for _ in 0..1000 {
        let a = rand_vector(&mut st);
        assert!(a.cross(a).is_almost_zero());
    }
}

#[test]
fn mul_inverse_is_div() {
    let mut st: u64 = 4;
    for _ in 0..1000 {
        let a = rand_vector(&mut st);
        // a nonzero divisor within about 60 world units, so the rounding
        // error stays inside the almost-equal tolerance
        let mut c: i64 = (lcg(&mut st) % (70 * SCALE as u64)) as i64 - 35 * SCALE;
        if c == 0 {
            c = SCALE;
        }
        let round_trip = a.div(c).scale(c);
        assert!(round_trip.is_almost_eq(a));
    }
}

#[test]
fn direction_has_unit_length() {
    let mut st: u64 = 5;
    for _ in 0..500 {
        let mut a = rand_vector(&mut st);
        if a.is_almost_zero() {
            a = Vector::new(SCALE, 0, 0);
        }
        let d = a.direction();
        let n2 = d.direction.dot(d.direction) as f64;
        let len = n2.sqrt() / SCALE as f64;
        assert!((len - 1.0).abs() < 0.01, "length {}", len);
    }
}
