//! Light sources: point lights and spot lights, with the reciprocal-
//! square-root distance falloff this renderer uses deliberately.

use crate::color::{Color, COLOR_MAX};
use crate::math::{div_t, div_ts, is_sqrt, isqrt, lemma_sqrt_unique, sdiv, sdiv128, sqrt_i};
use crate::point::Point;
use crate::sphere::{dot3, lemma_dot3_bound};
use crate::vector::{spec_diff, spec_direction, UnitVector, Vector};
use crate::SCALE;
use vstd::prelude::*;

verus! {

/// The directional profile of a light source.
pub enum LightKind {
    PointLight,
    SpotLight { direction: UnitVector, inner_cos: i64, outer_cos: i64 },
}

impl LightKind {
    pub open spec fn wf(self) -> bool {
        match self {
            LightKind::PointLight => true,
            LightKind::SpotLight { direction, inner_cos, outer_cos } => {
                &&& direction.wf()
                &&& -SCALE <= outer_cos <= inner_cos <= SCALE
            },
        }
    }
}

/// The profile intensity (fixed point, in `[0, 1]`) toward direction `d`.
pub open spec fn spec_intensity_at(kind: LightKind, d: Vector) -> int {
    match kind {
        LightKind::PointLight => SCALE as int,
        LightKind::SpotLight { direction, inner_cos, outer_cos } => {
            let cos = div_ts(dot3(direction.direction, d), SCALE as int);
            if cos < outer_cos {
                0
            } else if inner_cos < cos {
                SCALE as int
            } else if outer_cos == inner_cos {
                SCALE as int
            } else {
                let t = div_ts((outer_cos - cos) * SCALE, outer_cos - inner_cos);
                if t < 0 {
                    0
                } else if t > SCALE as int {
                    SCALE as int
                } else {
                    t
                }
            }
        },
    }
}

pub struct LightSource {
    pub color: Color,
    pub intensity: i64,
    pub position: Point,
    pub kind: LightKind,
}

/// What `illuminate` computes: the light's color scaled by its intensity,
/// its directional profile, and the reciprocal square root of the distance.
pub open spec fn spec_illuminate(light: LightSource, p: Point) -> Color {
    if p == light.position {
        spec_scale_sat(light.color, light.intensity as int)
    } else {
        let v = spec_diff(p.radius_vector, light.position.radius_vector);
        let len = sqrt_i(v.norm2());
        let sd = sqrt_i(len * SCALE);
        let d = spec_direction(v);
        let profile = spec_intensity_at(light.kind, d);
        let coef = div_t(light.intensity * profile, sd);
        spec_scale_sat(light.color, coef)
    }
}

/// Color scaling with the factor capped into the valid range.
pub open spec fn spec_scale_sat(c: Color, k: int) -> Color {
    let kk = if k > COLOR_MAX as int {
        COLOR_MAX as int
    } else {
        k
    };
    Color {
        r: crate::color::spec_cmin(div_t(c.r * kk, SCALE as int)) as i64,
        g: crate::color::spec_cmin(div_t(c.g * kk, SCALE as int)) as i64,
        b: crate::color::spec_cmin(div_t(c.b * kk, SCALE as int)) as i64,
    }
}

impl LightSource {
    /// Well-formed light: color and position in range, nonnegative
    /// intensity, a well-formed profile.
    pub open spec fn wf(self) -> bool {
        &&& self.color.wf()
        &&& 0 <= self.intensity <= COLOR_MAX
        &&& self.position.wf()
        &&& self.kind.wf()
    }

    pub fn new(color: Color, intensity: i64, position: Point, kind: LightKind) -> (r: LightSource)
        requires
            color.wf(),
            0 <= intensity <= COLOR_MAX,
            position.wf(),
            kind.wf(),
        ensures
            r == (LightSource { color, intensity, position, kind }),
            r.wf(),
    {
        LightSource { color, intensity, position, kind }
    }

    pub fn position(&self) -> (r: Point)
        ensures
            r == self.position,
    {
        self.position
    }

    /// The light arriving at point `p`: exactly `spec_illuminate`.
    pub fn illuminate(&self, p: Point) -> (r: Color)
        requires
            self.wf(),
            p.radius_vector.bounded(0x3000_0010),
        ensures
            r == spec_illuminate(*self, p),
            r.wf(),
    {
        let pos = self.position;
        if p.x() == pos.x() && p.y() == pos.y() && p.z() == pos.z() {
            proof {
                assert(p == pos);
            }
            return scale_sat(self.color, self.intensity);
        }
        let v = p.sub(self.position);
        let len: i64 = v.length();
        proof {
            crate::vector::lemma_norm2_range(v);
            crate::vector::lemma_norm2_pos(v);
            lemma_sqrt_unique(v.norm2(), len as int);
            assert(len >= 1) by (nonlinear_arith)
                requires
                    is_sqrt(v.norm2(), len as int),
                    v.norm2() >= 1,
            ;
        }
        let sd0: u64 = isqrt((len as u128) * (SCALE as u128));
        proof {
            assert(is_sqrt(len * SCALE, sd0 as int));
            assert(len <= 0x1_0000_0000) by (nonlinear_arith)
                requires
                    is_sqrt(v.norm2(), len as int),
                    v.norm2() < 0x4000_0000_0000_0000,
            ;
            assert(65536 <= len * SCALE <= 0x1_0000_0000_0000int) by (nonlinear_arith)
                requires
                    1 <= len <= 0x1_0000_0000,
                    SCALE == 65536,
            ;
            assert(1 <= sd0 <= 0x100_0000) by (nonlinear_arith)
                requires
                    is_sqrt(len * SCALE, sd0 as int),
                    65536 <= len * SCALE <= 0x1_0000_0000_0000,
            ;
        }
        let sd: i64 = sd0 as i64;
        proof {
            lemma_sqrt_unique(len * SCALE, sd as int);
        }
        let d = v.direction();
        let profile: i64 = self.intensity_at(d);
        proof {
            crate::vector::lemma_mul_abs_bound2(
                self.intensity as int,
                profile as int,
                COLOR_MAX as int,
                SCALE as int,
            );
            crate::math::lemma_div_t_bounds(self.intensity * profile, sd as int);
        }
        let coef128: i128 = sdiv128((self.intensity as i128) * (profile as i128), sd as i128);
        let coef: i64 = if coef128 > COLOR_MAX as i128 {
            COLOR_MAX
        } else {
            proof {
                assert(coef128 >= 0) by (nonlinear_arith)
                    requires
                        (sd as int) * (coef128 as int) >= self.intensity * profile - (sd - 1),
                        self.intensity * profile >= 0,
                        coef128 == crate::math::div_t(self.intensity * profile, sd as int),
                        sd >= 1,
                        self.intensity >= 0,
                        profile >= 0,
                ;
            }
            coef128 as i64
        };
        scale_sat(self.color, coef)
    }

    /// The directional profile toward `d`: exactly `spec_intensity_at`.
    fn intensity_at(&self, d: UnitVector) -> (r: i64)
        requires
            self.kind.wf(),
            d.wf(),
        ensures
            r == spec_intensity_at(self.kind, d.direction),
            0 <= r <= SCALE,
    {
        match &self.kind {
            LightKind::PointLight => SCALE,
            LightKind::SpotLight { direction, inner_cos, outer_cos } => {
                proof {
                    lemma_dot3_bound(direction.direction, d.direction, SCALE as int, SCALE as int);
                    assert(3 * (SCALE as int) * (SCALE as int) == 3 * 65536 * 65536int)
                        by (nonlinear_arith)
                        requires
                            SCALE == 65536,
                    ;
                }
                let dw: i64 = direction.dot_unit(d);
                let cos: i64 = if dw >= 0 {
                    sdiv(dw, SCALE)
                } else {
                    -sdiv(-dw, SCALE)
                };
                proof {
                    crate::math::lemma_div_t_bounds(dw as int, SCALE as int);
                    crate::math::lemma_div_t_bounds(-(dw as int), SCALE as int);
                    assert(-(3 * 65536) <= cos <= 3 * 65536) by (nonlinear_arith)
                        requires
                            -(3 * 65536 * 65536) <= dw <= 3 * 65536 * 65536,
                            dw >= 0 ==> cos == crate::math::div_t(dw as int, 65536)
                                && 65536 * (cos as int) <= dw && cos >= 0,
                            dw < 0 ==> cos == -crate::math::div_t(-(dw as int), 65536) && -(dw as int)
                                >= 65536 * (-(cos as int)) - 65535 && cos <= 0,
                    ;
                }
                if cos < *outer_cos {
                    0
                } else if *inner_cos < cos {
                    SCALE
                } else if *outer_cos == *inner_cos {
                    SCALE
                } else {
                    let num: i64 = *outer_cos - cos;
                    let den: i64 = *outer_cos - *inner_cos;
                    proof {
                        assert(-(4 * 65536int) <= num <= 4 * 65536int);
                        assert(-(0x1_0000_0000_0000_0000int) <= (-(num as int)) * (SCALE as int)
                            <= 0x1_0000_0000_0000_0000int) by (nonlinear_arith)
                            requires
                                -(4 * 65536int) <= num <= 4 * 65536int,
                                SCALE == 65536,
                        ;
                    }
                    // both nonpositive, den strictly negative
                    let t: i64 = sdiv128((-(num as i128)) * (SCALE as i128), -(den as i128)) as i64;
                    proof {
                        lemma_spot_ratio(num as int, den as int, t as int);
                    }
                    if t < 0 {
                        0
                    } else if t > SCALE {
                        SCALE
                    } else {
                        t
                    }
                }
            },
        }
    }
}

/// The spot falloff ratio equals the sign-split division the code performs.
proof fn lemma_spot_ratio(num: int, den: int, t: int)
    requires
        den < 0,
        t == div_t(-(num * SCALE), -den),
    ensures
        t == div_ts(num * SCALE, den),
{
    let a = num * SCALE;
    assert(-(num * SCALE) == (-num) * SCALE) by (nonlinear_arith);
    if a >= 0 {
        assert(div_t(-a, -den) == -div_t(a, -den));
    } else {
        assert(div_t(-a, -den) == -div_t(a, -den));
    }
}

/// Saturating color scaling: exactly `spec_scale_sat`.
fn scale_sat(c: Color, k: i64) -> (r: Color)
    requires
        c.wf(),
        0 <= k,
    ensures
        r == spec_scale_sat(c, k as int),
        r.wf(),
{
    let kk: i64 = if k > COLOR_MAX {
        COLOR_MAX
    } else {
        k
    };
    c.scale(kk)
}

} // verus!
