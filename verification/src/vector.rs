//! 3D vectors over fixed-point coordinates, and approximately-unit vectors
//! produced by normalization.
//!
//! Addition, subtraction, negation, dot and cross products are exact on the
//! raw integer coordinates; only `scale` and `direction` round, and their
//! contracts pin the rounded value through `div_t`.

use crate::math::{
    abs_i, div_t, div_ts, is_sqrt, isqrt, lemma_div_t_bounds, sdiv128,
};
use crate::SCALE;
use vstd::prelude::*;

verus! {

/// Coordinate bound for world geometry: every well-formed point, vector and
/// box coordinate stays within this many raw units of the origin.
pub const MAX_COORD: i64 = 0x1000_0000;

#[derive(Clone, Copy, PartialEq, Eq, Structural, Debug)]
pub struct Vector {
    pub x: i64,
    pub y: i64,
    pub z: i64,
}

impl Vector {
    /// Every coordinate lies within `b` of zero.
    pub open spec fn bounded(self, b: int) -> bool {
        &&& -b <= self.x <= b
        &&& -b <= self.y <= b
        &&& -b <= self.z <= b
    }

    /// Well-formed world vector: coordinates within `MAX_COORD`.
    pub open spec fn wf(self) -> bool {
        self.bounded(MAX_COORD as int)
    }

    /// The squared Euclidean length, exact over the raw coordinates.
    pub open spec fn norm2(self) -> int {
        self.x * self.x + self.y * self.y + self.z * self.z
    }

    pub open spec fn is_zero(self) -> bool {
        self.x == 0 && self.y == 0 && self.z == 0
    }

    pub fn new(x: i64, y: i64, z: i64) -> (r: Vector)
        ensures
            r == (Vector { x, y, z }),
    {
        Vector { x, y, z }
    }

    /// The coordinate along `axis` (0 = x, 1 = y, 2 = z).
    pub open spec fn spec_coord(self, axis: int) -> int {
        if axis == 0 {
            self.x as int
        } else if axis == 1 {
            self.y as int
        } else {
            self.z as int
        }
    }

    /// The coordinate along `axis`.
    pub fn coord(&self, axis: usize) -> (r: i64)
        requires
            axis < 3,
        ensures
            r == self.spec_coord(axis as int),
    {
        if axis == 0 {
            self.x
        } else if axis == 1 {
            self.y
        } else {
            self.z
        }
    }

    pub fn neg(self) -> (r: Vector)
        requires
            self.bounded(0x4000_0000_0000_0000),
        ensures
            r.x == -self.x,
            r.y == -self.y,
            r.z == -self.z,
    {
        Vector { x: -self.x, y: -self.y, z: -self.z }
    }

    pub fn add(self, rhs: Vector) -> (r: Vector)
        requires
            self.bounded(0x2000_0000_0000_0000),
            rhs.bounded(0x2000_0000_0000_0000),
        ensures
            r.x == self.x + rhs.x,
            r.y == self.y + rhs.y,
            r.z == self.z + rhs.z,
    {
        Vector { x: self.x + rhs.x, y: self.y + rhs.y, z: self.z + rhs.z }
    }

    pub fn sub(self, rhs: Vector) -> (r: Vector)
        requires
            self.bounded(0x2000_0000_0000_0000),
            rhs.bounded(0x2000_0000_0000_0000),
        ensures
            r.x == self.x - rhs.x,
            r.y == self.y - rhs.y,
            r.z == self.z - rhs.z,
    {
        Vector { x: self.x - rhs.x, y: self.y - rhs.y, z: self.z - rhs.z }
    }

    /// Multiplies by the fixed-point scalar `c` (which stands for `c / SCALE`),
    /// rounding each coordinate toward zero.
    pub fn scale(self, c: i64) -> (r: Vector)
        requires
            self.bounded(0x100_0000_0000),
            -0x40_0000_0000 <= c <= 0x40_0000_0000,
        ensures
            r.x == div_t(self.x * c, SCALE as int),
            r.y == div_t(self.y * c, SCALE as int),
            r.z == div_t(self.z * c, SCALE as int),
            abs_i(r.x as int) * (SCALE as int) <= abs_i(self.x * c),
            abs_i(r.y as int) * (SCALE as int) <= abs_i(self.y * c),
            abs_i(r.z as int) * (SCALE as int) <= abs_i(self.z * c),
    {
        proof {
            lemma_scale_component(self.x as int, c as int);
            lemma_scale_component(self.y as int, c as int);
            lemma_scale_component(self.z as int, c as int);
        }
        Vector {
            x: sdiv128((self.x as i128) * (c as i128), SCALE as i128) as i64,
            y: sdiv128((self.y as i128) * (c as i128), SCALE as i128) as i64,
            z: sdiv128((self.z as i128) * (c as i128), SCALE as i128) as i64,
        }
    }

    /// Multiplies by the fixed-point scalar `c`: the same operation as
    /// `scale`, under the name the arithmetic operator had.
    pub fn mul(self, c: i64) -> (r: Vector)
        requires
            self.bounded(0x100_0000_0000),
            -0x40_0000_0000 <= c <= 0x40_0000_0000,
        ensures
            r == spec_scale(self, c as int),
    {
        let r = self.scale(c);
        proof {
            assert(r == spec_scale(self, c as int));
        }
        r
    }

    /// Divides by the fixed-point scalar `c`, rounding each coordinate
    /// toward zero.
    pub fn div(self, c: i64) -> (r: Vector)
        requires
            self.bounded(0x100_0000_0000),
            c != 0,
            -0x40_0000_0000 <= c <= 0x40_0000_0000,
        ensures
            r == spec_div(self, c as int),
    {
        proof {
            lemma_div_then_scale_component(self.x as int, c as int);
            lemma_div_then_scale_component(self.y as int, c as int);
            lemma_div_then_scale_component(self.z as int, c as int);
        }
        let d: i128 = if c > 0 {
            c as i128
        } else {
            -(c as i128)
        };
        let sx: i128 = sdiv128((self.x as i128) * (SCALE as i128), d);
        let sy: i128 = sdiv128((self.y as i128) * (SCALE as i128), d);
        let sz: i128 = sdiv128((self.z as i128) * (SCALE as i128), d);
        if c > 0 {
            Vector { x: sx as i64, y: sy as i64, z: sz as i64 }
        } else {
            Vector { x: -(sx as i64), y: -(sy as i64), z: -(sz as i64) }
        }
    }

    pub fn dot(self, rhs: Vector) -> (r: i64)
        requires
            self.bounded(0x4100_0000),
            rhs.bounded(0x4100_0000),
        ensures
            r == self.x * rhs.x + self.y * rhs.y + self.z * rhs.z,
    {
        proof {
            lemma_mul_abs_bound(self.x as int, rhs.x as int, 0x4100_0000);
            lemma_mul_abs_bound(self.y as int, rhs.y as int, 0x4100_0000);
            lemma_mul_abs_bound(self.z as int, rhs.z as int, 0x4100_0000);
        }
        let p: i128 = (self.x as i128) * (rhs.x as i128) + (self.y as i128) * (rhs.y as i128) + (
        self.z as i128) * (rhs.z as i128);
        p as i64
    }

    pub fn cross(self, rhs: Vector) -> (r: Vector)
        requires
            self.bounded(0x4100_0000),
            rhs.bounded(0x4100_0000),
        ensures
            r.x == self.y * rhs.z - self.z * rhs.y,
            r.y == -(self.x * rhs.z - self.z * rhs.x),
            r.z == self.x * rhs.y - self.y * rhs.x,
    {
        proof {
            lemma_mul_abs_bound(self.y as int, rhs.z as int, 0x4100_0000);
            lemma_mul_abs_bound(self.z as int, rhs.y as int, 0x4100_0000);
            lemma_mul_abs_bound(self.x as int, rhs.z as int, 0x4100_0000);
            lemma_mul_abs_bound(self.z as int, rhs.x as int, 0x4100_0000);
            lemma_mul_abs_bound(self.x as int, rhs.y as int, 0x4100_0000);
            lemma_mul_abs_bound(self.y as int, rhs.x as int, 0x4100_0000);
        }
        let cx: i128 = (self.y as i128) * (rhs.z as i128) - (self.z as i128) * (rhs.y as i128);
        let cy: i128 = (self.x as i128) * (rhs.z as i128) - (self.z as i128) * (rhs.x as i128);
        let cz: i128 = (self.x as i128) * (rhs.y as i128) - (self.y as i128) * (rhs.x as i128);
        Vector { x: cx as i64, y: -(cy as i64), z: cz as i64 }
    }

    /// The dot product over wide intermediates, for large operands such as
    /// raw cross products.
    pub fn dot_wide(self, rhs: Vector) -> (r: i128)
        requires
            self.bounded(0x8000_0000),
            rhs.bounded(0x1000_0000_0000_0000),
        ensures
            r == self.x * rhs.x + self.y * rhs.y + self.z * rhs.z,
            -0x2000_0000_0000_0000_0000_0000 <= r <= 0x2000_0000_0000_0000_0000_0000,
    {
        proof {
            lemma_mul_abs_bound2(self.x as int, rhs.x as int, 0x8000_0000, 0x1000_0000_0000_0000);
            lemma_mul_abs_bound2(self.y as int, rhs.y as int, 0x8000_0000, 0x1000_0000_0000_0000);
            lemma_mul_abs_bound2(self.z as int, rhs.z as int, 0x8000_0000, 0x1000_0000_0000_0000);
        }
        (self.x as i128) * (rhs.x as i128) + (self.y as i128) * (rhs.y as i128) + (self.z as i128)
            * (rhs.z as i128)
    }

    /// Halves the coordinates (rounding toward zero) until they all fit
    /// within `2^30`, preserving the approximate direction.
    pub fn shrink_to_bounds(self) -> (r: Vector)
        requires
            self.bounded(0x4000_0000_0000_0000),
        ensures
            r == spec_shrink(self),
            r.bounded(0x4000_0000),
            self.is_zero() == r.is_zero(),
        decreases abs_i(self.x as int) + abs_i(self.y as int) + abs_i(self.z as int),
    {
        if self.x >= -0x4000_0000 && self.x <= 0x4000_0000 && self.y >= -0x4000_0000 && self.y
            <= 0x4000_0000 && self.z >= -0x4000_0000 && self.z <= 0x4000_0000 {
            self
        } else {
            let h = Vector {
                x: crate::math::sdiv(self.x, 2),
                y: crate::math::sdiv(self.y, 2),
                z: crate::math::sdiv(self.z, 2),
            };
            proof {
                lemma_half_shrinks(self, h);
            }
            h.shrink_to_bounds()
        }
    }

    /// The Euclidean length in raw units, rounded down.
    pub fn length(self) -> (r: i64)
        requires
            self.bounded(0x4100_0000),
        ensures
            is_sqrt(self.norm2(), r as int),
    {
        proof {
            lemma_norm2_range(self);
        }
        let n2: i64 = self.dot(self);
        let r: u64 = isqrt(n2 as u128);
        proof {
            lemma_sqrt_le(self.norm2(), r as int, 0x8000_0000);
        }
        r as i64
    }

    /// True when the length is below the `is_almost_zero` tolerance
    /// (about 1e-3 world units).
    pub fn is_almost_zero(self) -> (r: bool)
        requires
            self.bounded(0x4100_0000),
        ensures
            r == (self.norm2() < 66 * 66),
    {
        proof {
            lemma_norm2_range(self);
        }
        let len: i64 = self.length();
        proof {
            let l = len as int;
            if l < 66 {
                assert((l + 1) * (l + 1) <= 66 * 66) by (nonlinear_arith)
                    requires
                        0 <= l < 66,
                ;
            } else {
                assert(66 * 66 <= l * l) by (nonlinear_arith)
                    requires
                        l >= 66,
                ;
            }
        }
        len < 66
    }

    /// True when `self` and `rhs` differ by an almost-zero vector.
    pub fn is_almost_eq(self, rhs: Vector) -> (r: bool)
        requires
            self.bounded(0x2000_0000),
            rhs.bounded(0x2000_0000),
        ensures
            r == (spec_diff(self, rhs).norm2() < 66 * 66),
    {
        self.sub(rhs).is_almost_zero()
    }

    /// Normalizes into an approximately-unit vector: each coordinate becomes
    /// `div_t(coordinate * SCALE, length)`.
    pub fn direction(self) -> (r: UnitVector)
        requires
            self.bounded(0x4100_0000),
            !self.is_zero(),
        ensures
            r.direction == spec_direction(self),
            r.wf(),
    {
        proof {
            lemma_norm2_range(self);
            lemma_norm2_pos(self);
        }
        let len: i64 = self.length();
        proof {
            lemma_direction_bounds(self, len as int);
        }
        let r = UnitVector {
            direction: Vector {
                x: sdiv128((self.x as i128) * (SCALE as i128), len as i128) as i64,
                y: sdiv128((self.y as i128) * (SCALE as i128), len as i128) as i64,
                z: sdiv128((self.z as i128) * (SCALE as i128), len as i128) as i64,
            },
        };
        r
    }
}

/// The difference vector, at the spec level.
pub open spec fn spec_diff(a: Vector, b: Vector) -> Vector {
    Vector { x: (a.x - b.x) as i64, y: (a.y - b.y) as i64, z: (a.z - b.z) as i64 }
}

/// The sum vector, at the spec level.
pub open spec fn spec_add(a: Vector, b: Vector) -> Vector {
    Vector { x: (a.x + b.x) as i64, y: (a.y + b.y) as i64, z: (a.z + b.z) as i64 }
}

/// The cross product, at the spec level.
pub open spec fn spec_cross(a: Vector, b: Vector) -> Vector {
    Vector {
        x: (a.y * b.z - a.z * b.y) as i64,
        y: (-(a.x * b.z - a.z * b.x)) as i64,
        z: (a.x * b.y - a.y * b.x) as i64,
    }
}

/// What `scale` computes.
pub open spec fn spec_scale(v: Vector, c: int) -> Vector {
    Vector {
        x: div_t(v.x * c, SCALE as int) as i64,
        y: div_t(v.y * c, SCALE as int) as i64,
        z: div_t(v.z * c, SCALE as int) as i64,
    }
}

/// What `div` computes: each coordinate scaled by `SCALE` and divided,
/// rounding toward zero, by the fixed-point scalar `c`.
pub open spec fn spec_div(v: Vector, c: int) -> Vector {
    Vector {
        x: div_ts(v.x * SCALE, c) as i64,
        y: div_ts(v.y * SCALE, c) as i64,
        z: div_ts(v.z * SCALE, c) as i64,
    }
}

/// Vector addition is commutative.
pub proof fn lemma_add_commutative(a: Vector, b: Vector)
    ensures
        spec_add(a, b) == spec_add(b, a),
{
}

/// Subtracting a vector from itself gives the zero vector exactly.
pub proof fn lemma_sub_self_is_zero(a: Vector)
    ensures
        spec_diff(a, a).is_zero(),
{
}

/// The cross product of a vector with itself is the zero vector exactly.
pub proof fn lemma_cross_self_is_zero(a: Vector)
    ensures
        spec_cross(a, a).is_zero(),
{
    assert(a.y * a.z == a.z * a.y) by (nonlinear_arith);
    assert(a.x * a.z == a.z * a.x) by (nonlinear_arith);
    assert(a.x * a.y == a.y * a.x) by (nonlinear_arith);
}

/// Dividing by a nonzero scalar and scaling back recovers the vector up to
/// rounding: each coordinate moves by at most `(|c| + SCALE) / SCALE` raw
/// units.
pub proof fn lemma_div_then_scale(a: Vector, c: int)
    requires
        a.bounded(0x100_0000_0000),
        c != 0,
        -0x40_0000_0000 <= c <= 0x40_0000_0000,
    ensures
        abs_i(spec_scale(spec_div(a, c), c).x - a.x) * (SCALE as int) <= abs_i(c) + SCALE,
        abs_i(spec_scale(spec_div(a, c), c).y - a.y) * (SCALE as int) <= abs_i(c) + SCALE,
        abs_i(spec_scale(spec_div(a, c), c).z - a.z) * (SCALE as int) <= abs_i(c) + SCALE,
{
    lemma_div_then_scale_component(a.x as int, c);
    lemma_div_then_scale_component(a.y as int, c);
    lemma_div_then_scale_component(a.z as int, c);
}

/// One coordinate of the round trip in `lemma_div_then_scale`.
pub(crate) proof fn lemma_div_then_scale_component(x: int, c: int)
    requires
        -0x100_0000_0000 <= x <= 0x100_0000_0000,
        c != 0,
        -0x40_0000_0000 <= c <= 0x40_0000_0000,
    ensures
        -0x100_0000_0000_0000_0000 <= div_ts(x * SCALE, c) <= 0x100_0000_0000_0000_0000,
        abs_i(div_t(div_ts(x * SCALE, c) * c, SCALE as int) - x) * (SCALE as int) <= abs_i(c)
            + SCALE,
{
    let b = abs_i(c);
    let r1 = div_ts(x * SCALE, c);
    lemma_div_t_bounds(x * SCALE, b);
    if c > 0 {
    } else {
        assert(r1 == -div_t(x * SCALE, b));
        assert(r1 * c == div_t(x * SCALE, b) * b) by (nonlinear_arith)
            requires
                r1 == -div_t(x * SCALE, b),
                b == -c,
        ;
    }
    assert(x * SCALE - (b - 1) <= r1 * c <= x * SCALE + (b - 1)) by (nonlinear_arith)
        requires
            b == abs_i(c),
            c != 0,
            c > 0 ==> r1 == div_t(x * SCALE, b),
            c <= 0 ==> r1 * c == div_t(x * SCALE, b) * b,
            x * SCALE - (b - 1) <= b * div_t(x * SCALE, b) <= x * SCALE + (b - 1),
    ;
    assert(-0x100_0000_0000_0000_0000 <= r1 <= 0x100_0000_0000_0000_0000) by (nonlinear_arith)
        requires
            x * SCALE - (b - 1) <= r1 * c <= x * SCALE + (b - 1),
            -0x100_0000_0000 <= x <= 0x100_0000_0000,
            1 <= b <= 0x40_0000_0000,
            b == abs_i(c),
            SCALE == 65536,
    ;
    let r2 = div_t(r1 * c, SCALE as int);
    lemma_div_t_bounds(r1 * c, SCALE as int);
    assert(abs_i(r2 - x) * (SCALE as int) <= b + SCALE) by (nonlinear_arith)
        requires
            x * SCALE - (b - 1) <= r1 * c <= x * SCALE + (b - 1),
            r1 * c - (SCALE - 1) <= (SCALE as int) * r2 <= r1 * c + (SCALE - 1),
            b >= 1,
            SCALE == 65536,
    ;
}

/// What `direction` computes: each coordinate scaled by `SCALE` and divided,
/// rounding toward zero, by the rounded-down length.
pub open spec fn spec_direction(v: Vector) -> Vector {
    let len = crate::math::sqrt_i(v.norm2());
    Vector {
        x: div_t(v.x * SCALE, len) as i64,
        y: div_t(v.y * SCALE, len) as i64,
        z: div_t(v.z * SCALE, len) as i64,
    }
}

/// A vector produced by normalization: its raw length is approximately
/// `SCALE`, and every coordinate is bounded by `SCALE`.
#[derive(Clone, Copy, PartialEq, Eq, Structural, Debug)]
pub struct UnitVector {
    pub direction: Vector,
}

impl UnitVector {
    /// Well-formed direction: each coordinate within `SCALE` of zero.
    pub open spec fn wf(self) -> bool {
        self.direction.bounded(SCALE as int)
    }

    pub fn neg(self) -> (r: UnitVector)
        requires
            self.wf(),
        ensures
            r.direction.x == -self.direction.x,
            r.direction.y == -self.direction.y,
            r.direction.z == -self.direction.z,
            r.wf(),
    {
        UnitVector { direction: self.direction.neg() }
    }

    /// Scales the direction by the fixed-point scalar `c`.
    pub fn scale(self, c: i64) -> (r: Vector)
        requires
            self.wf(),
            -0x40_0000_0000 <= c <= 0x40_0000_0000,
        ensures
            r.x == div_t(self.direction.x * c, SCALE as int),
            r.y == div_t(self.direction.y * c, SCALE as int),
            r.z == div_t(self.direction.z * c, SCALE as int),
            abs_i(r.x as int) <= abs_i(c as int),
            abs_i(r.y as int) <= abs_i(c as int),
            abs_i(r.z as int) <= abs_i(c as int),
    {
        let r = self.direction.scale(c);
        proof {
            lemma_unit_scale_bound(self.direction.x as int, c as int, r.x as int);
            lemma_unit_scale_bound(self.direction.y as int, c as int, r.y as int);
            lemma_unit_scale_bound(self.direction.z as int, c as int, r.z as int);
        }
        r
    }

    pub fn dot(self, rhs: Vector) -> (r: i64)
        requires
            self.wf(),
            rhs.bounded(0x4100_0000),
        ensures
            r == self.direction.x * rhs.x + self.direction.y * rhs.y + self.direction.z * rhs.z,
    {
        self.direction.dot(rhs)
    }

    pub fn dot_unit(self, rhs: UnitVector) -> (r: i64)
        requires
            self.wf(),
            rhs.wf(),
        ensures
            r == self.direction.x * rhs.direction.x + self.direction.y * rhs.direction.y
                + self.direction.z * rhs.direction.z,
    {
        self.direction.dot(rhs.direction)
    }

    pub fn cross(self, rhs: UnitVector) -> (r: Vector)
        requires
            self.wf(),
            rhs.wf(),
        ensures
            r.x == self.direction.y * rhs.direction.z - self.direction.z * rhs.direction.y,
            r.y == -(self.direction.x * rhs.direction.z - self.direction.z * rhs.direction.x),
            r.z == self.direction.x * rhs.direction.y - self.direction.y * rhs.direction.x,
    {
        self.direction.cross(rhs.direction)
    }

    /// Bends `self` toward `axis`: the normalized direction of
    /// `self + 2 * axis`. When the sum degenerates to zero, returns `axis`.
    pub fn reflect(self, axis: UnitVector) -> (r: UnitVector)
        requires
            self.wf(),
            axis.wf(),
        ensures
            r == spec_reflect(self, axis),
            r.wf(),
    {
        let doubled = Vector {
            x: 2 * axis.direction.x,
            y: 2 * axis.direction.y,
            z: 2 * axis.direction.z,
        };
        let s = self.direction.add(doubled);
        if s.x == 0 && s.y == 0 && s.z == 0 {
            axis
        } else {
            s.direction()
        }
    }
}

/// What `reflect` computes: the normalized direction of `v + 2 * axis`,
/// or `axis` itself when that sum degenerates to zero.
pub open spec fn spec_reflect(v: UnitVector, axis: UnitVector) -> UnitVector {
    let s = spec_reflect_sum(v, axis);
    if s.is_zero() {
        axis
    } else {
        UnitVector { direction: spec_direction(s) }
    }
}

/// The vector whose direction a reflection takes: `self + 2 * axis`.
pub open spec fn spec_reflect_sum(v: UnitVector, axis: UnitVector) -> Vector {
    Vector {
        x: (v.direction.x + 2 * axis.direction.x) as i64,
        y: (v.direction.y + 2 * axis.direction.y) as i64,
        z: (v.direction.z + 2 * axis.direction.z) as i64,
    }
}

/// `spec_shrink` halves the coordinates (rounding toward zero) until they
/// all fit within `2^30`.
pub open spec fn spec_shrink(v: Vector) -> Vector
    decreases abs_i(v.x as int) + abs_i(v.y as int) + abs_i(v.z as int),
    via spec_shrink_decreases
{
    if v.bounded(0x4000_0000) {
        v
    } else {
        spec_shrink(spec_half(v))
    }
}

/// One truncating halving of each coordinate.
pub open spec fn spec_half(v: Vector) -> Vector {
    Vector { x: div_t(v.x as int, 2) as i64, y: div_t(v.y as int, 2) as i64, z: div_t(
        v.z as int,
        2,
    ) as i64 }
}

#[via_fn]
proof fn spec_shrink_decreases(v: Vector) {
    if !v.bounded(0x4000_0000) {
        lemma_half_shrinks(v, spec_half(v));
    }
}

/// Facts about one halving step of an out-of-bounds vector: the coordinate
/// magnitudes never grow, the total strictly shrinks, boundedness within
/// `i64` is kept, and a nonzero vector stays nonzero.
proof fn lemma_half_shrinks(v: Vector, h: Vector)
    requires
        !v.bounded(0x4000_0000),
        h.x == div_t(v.x as int, 2),
        h.y == div_t(v.y as int, 2),
        h.z == div_t(v.z as int, 2),
    ensures
        h == spec_half(v),
        abs_i(h.x as int) + abs_i(h.y as int) + abs_i(h.z as int) < abs_i(v.x as int) + abs_i(
            v.y as int,
        ) + abs_i(v.z as int),
        0 <= abs_i(h.x as int) + abs_i(h.y as int) + abs_i(h.z as int),
        h.bounded(0x4000_0000_0000_0000),
        h.is_zero() == v.is_zero(),
{
    lemma_half_component(v.x as int);
    lemma_half_component(v.y as int);
    lemma_half_component(v.z as int);
}

/// One halving: magnitude at most halves (rounded up), strictly shrinks for
/// magnitudes of at least one, and stays nonzero above one.
proof fn lemma_half_component(x: int)
    ensures
        abs_i(div_t(x, 2)) * 2 <= abs_i(x) + 1,
        abs_i(x) >= 1 ==> abs_i(div_t(x, 2)) < abs_i(x),
        abs_i(x) >= 2 ==> abs_i(div_t(x, 2)) >= 1,
        abs_i(x) == 0 ==> div_t(x, 2) == 0,
{
    lemma_div_t_bounds(x, 2);
    let q = div_t(x, 2);
    assert(abs_i(q) * 2 <= abs_i(x) + 1 && (abs_i(x) >= 1 ==> abs_i(q) < abs_i(x)) && (abs_i(x)
        >= 2 ==> abs_i(q) >= 1) && (abs_i(x) == 0 ==> q == 0)) by (nonlinear_arith)
        requires
            x - 1 <= 2 * q <= x + 1,
            x >= 0 ==> 2 * q <= x && q >= 0,
            x <= 0 ==> x <= 2 * q && q <= 0,
    ;
}

/// A cross product of vectors bounded by `ba` and `bb` is bounded by
/// `2 * ba * bb`.
pub proof fn lemma_cross_bounds(a: Vector, b: Vector, ba: int, bb: int, r: Vector)
    requires
        a.bounded(ba),
        b.bounded(bb),
        ba >= 0,
        bb >= 0,
        r.x == a.y * b.z - a.z * b.y,
        r.y == -(a.x * b.z - a.z * b.x),
        r.z == a.x * b.y - a.y * b.x,
    ensures
        r.bounded(2 * ba * bb),
{
    lemma_mul_abs_bound2(a.y as int, b.z as int, ba, bb);
    lemma_mul_abs_bound2(a.z as int, b.y as int, ba, bb);
    lemma_mul_abs_bound2(a.x as int, b.z as int, ba, bb);
    lemma_mul_abs_bound2(a.z as int, b.x as int, ba, bb);
    lemma_mul_abs_bound2(a.x as int, b.y as int, ba, bb);
    lemma_mul_abs_bound2(a.y as int, b.x as int, ba, bb);
    assert(2 * ba * bb == (ba * bb) + (ba * bb)) by (nonlinear_arith);
}

/// A product of coordinates within `ba` and `bb` stays within `ba * bb`.
pub(crate) proof fn lemma_mul_abs_bound2(a: int, c: int, ba: int, bb: int)
    requires
        -ba <= a <= ba,
        -bb <= c <= bb,
        ba >= 0,
        bb >= 0,
    ensures
        -(ba * bb) <= a * c <= ba * bb,
{
    assert(-(ba * bb) <= a * c <= ba * bb) by (nonlinear_arith)
        requires
            -ba <= a <= ba,
            -bb <= c <= bb,
            ba >= 0,
            bb >= 0,
    ;
}

/// A product of two coordinates within `b` stays within `b * b`.
pub(crate) proof fn lemma_mul_abs_bound(a: int, c: int, b: int)
    requires
        -b <= a <= b,
        -b <= c <= b,
        b >= 0,
    ensures
        -(b * b) <= a * c <= b * b,
{
    assert(-(b * b) <= a * c <= b * b) by (nonlinear_arith)
        requires
            -b <= a <= b,
            -b <= c <= b,
            b >= 0,
    ;
}

/// The squared norm of a vector with coordinates within `2^30` is
/// nonnegative and below `2^62`.
pub(crate) proof fn lemma_norm2_range(v: Vector)
    requires
        v.bounded(0x4100_0000),
    ensures
        0 <= v.norm2() < 0x4000_0000_0000_0000,
        v.x * v.x >= 0,
        v.y * v.y >= 0,
        v.z * v.z >= 0,
        v.x * v.x <= v.norm2(),
        v.y * v.y <= v.norm2(),
        v.z * v.z <= v.norm2(),
{
    assert(0 <= v.x * v.x <= 0x1100_0000_0000_0000) by (nonlinear_arith)
        requires
            -0x4100_0000 <= v.x <= 0x4100_0000,
    ;
    assert(0 <= v.y * v.y <= 0x1100_0000_0000_0000) by (nonlinear_arith)
        requires
            -0x4100_0000 <= v.y <= 0x4100_0000,
    ;
    assert(0 <= v.z * v.z <= 0x1100_0000_0000_0000) by (nonlinear_arith)
        requires
            -0x4100_0000 <= v.z <= 0x4100_0000,
    ;
}

/// A nonzero vector has a positive squared norm.
pub(crate) proof fn lemma_norm2_pos(v: Vector)
    requires
        !v.is_zero(),
    ensures
        v.norm2() >= 1,
{
    assert(v.x * v.x >= 0 && (v.x != 0 ==> v.x * v.x >= 1)) by (nonlinear_arith);
    assert(v.y * v.y >= 0 && (v.y != 0 ==> v.y * v.y >= 1)) by (nonlinear_arith);
    assert(v.z * v.z >= 0 && (v.z != 0 ==> v.z * v.z >= 1)) by (nonlinear_arith);
}

/// The rounded square root of a value below `2^62` stays below `2^31`.
proof fn lemma_sqrt_le(n: int, r: int, b: int)
    requires
        is_sqrt(n, r),
        b > 0,
        n < b * b,
    ensures
        r < b,
{
    assert(r >= b ==> b * b <= r * r) by (nonlinear_arith)
        requires
            b > 0,
            r >= 0,
    ;
}

/// Scaling bounds for `scale`: the product fits and the quotient fits `i64`.
proof fn lemma_scale_component(a: int, c: int)
    requires
        -0x100_0000_0000 <= a <= 0x100_0000_0000,
        -0x40_0000_0000 <= c <= 0x40_0000_0000,
    ensures
        -0x4000_0000_0000_0000_0000 <= a * c <= 0x4000_0000_0000_0000_0000,
        -0x4000_0000_0000_0000 <= div_t(a * c, SCALE as int) <= 0x4000_0000_0000_0000,
        abs_i(div_t(a * c, SCALE as int)) * (SCALE as int) <= abs_i(a * c),
{
    assert(-0x4000_0000_0000_0000_0000 <= a * c <= 0x4000_0000_0000_0000_0000)
        by (nonlinear_arith)
        requires
            -0x100_0000_0000 <= a <= 0x100_0000_0000,
            -0x40_0000_0000 <= c <= 0x40_0000_0000,
    ;
    lemma_div_t_bounds(a * c, SCALE as int);
    let q = div_t(a * c, SCALE as int);
    assert(abs_i(q) * (SCALE as int) <= abs_i(a * c) && abs_i(q) <= 0x4000_0000_0000_0000)
        by (nonlinear_arith)
        requires
            (a * c) - (SCALE - 1) <= (SCALE as int) * q <= (a * c) + (SCALE - 1),
            a * c >= 0 ==> (SCALE as int) * q <= a * c && q >= 0,
            a * c <= 0 ==> a * c <= (SCALE as int) * q && q <= 0,
            -0x4000_0000_0000_0000_0000 <= a * c <= 0x4000_0000_0000_0000_0000,
            SCALE == 65536,
    ;
}

/// A unit-vector coordinate scaled by `c` stays within `c` in magnitude.
pub(crate) proof fn lemma_unit_scale_bound(d: int, c: int, r: int)
    requires
        -(SCALE as int) <= d <= (SCALE as int),
        r == div_t(d * c, SCALE as int),
    ensures
        abs_i(r) <= abs_i(c),
{
    lemma_div_t_bounds(d * c, SCALE as int);
    assert(abs_i(r) <= abs_i(c)) by (nonlinear_arith)
        requires
            -(SCALE as int) <= d <= (SCALE as int),
            r == div_t(d * c, SCALE as int),
            (d * c) - (SCALE - 1) <= (SCALE as int) * r <= (d * c) + (SCALE - 1),
            d * c >= 0 ==> (SCALE as int) * r <= d * c && r >= 0,
            d * c <= 0 ==> d * c <= (SCALE as int) * r && r <= 0,
            SCALE == 65536,
    ;
}

/// Bounds needed by `direction`: each scaled coordinate divided by the
/// length stays within `SCALE`.
pub(crate) proof fn lemma_direction_bounds(v: Vector, len: int)
    requires
        v.bounded(0x4100_0000),
        v.norm2() >= 1,
        is_sqrt(v.norm2(), len),
    ensures
        len >= 1,
        abs_i(div_t(v.x * SCALE, len)) <= SCALE as int,
        abs_i(div_t(v.y * SCALE, len)) <= SCALE as int,
        abs_i(div_t(v.z * SCALE, len)) <= SCALE as int,
        div_t(v.x * SCALE, len) == spec_direction(v).x,
        div_t(v.y * SCALE, len) == spec_direction(v).y,
        div_t(v.z * SCALE, len) == spec_direction(v).z,
{
    assert(len >= 1) by (nonlinear_arith)
        requires
            is_sqrt(v.norm2(), len),
            v.norm2() >= 1,
    ;
    crate::math::lemma_sqrt_unique(v.norm2(), len);
    lemma_norm2_range_pub(v);
    lemma_direction_component(v.x as int, v.norm2(), len);
    lemma_direction_component(v.y as int, v.norm2(), len);
    lemma_direction_component(v.z as int, v.norm2(), len);
}

/// Re-derives the per-component square bound for use outside this module's
/// private helper.
proof fn lemma_norm2_range_pub(v: Vector)
    requires
        v.bounded(0x4100_0000),
    ensures
        v.x * v.x <= v.norm2(),
        v.y * v.y <= v.norm2(),
        v.z * v.z <= v.norm2(),
{
    lemma_norm2_range(v);
}

/// A coordinate whose square is at most `n` divides out to at most `SCALE`
/// after scaling by `SCALE` and dividing by the rounded root of `n`.
proof fn lemma_direction_component(a: int, n: int, len: int)
    requires
        a * a <= n,
        is_sqrt(n, len),
        len >= 1,
    ensures
        abs_i(div_t(a * SCALE, len)) <= SCALE as int,
{
    assert(abs_i(a) <= len) by (nonlinear_arith)
        requires
            a * a <= n,
            is_sqrt(n, len),
            len >= 0,
    ;
    lemma_div_t_bounds(a * SCALE, len);
    let q = div_t(a * SCALE, len);
    assert(abs_i(q) <= SCALE as int) by (nonlinear_arith)
        requires
            abs_i(a) <= len,
            len >= 1,
            q == div_t(a * SCALE, len),
            (a * SCALE) - (len - 1) <= len * q <= (a * SCALE) + (len - 1),
            a * SCALE >= 0 ==> len * q <= a * SCALE && q >= 0,
            a * SCALE <= 0 ==> a * SCALE <= len * q && q <= 0,
            SCALE == 65536,
    ;
}

} // verus!
