//! Axis-aligned bounding boxes and the slab test for ray/box rejection.
//!
//! The slab test here is conservative: it widens every interval bound by one
//! raw unit and one rounding step, so that it can promise outright that a
//! `false` answer means no point of the ray within the distance bound lies
//! in the box. That promise is what makes tree pruning sound.

use crate::math::{div_t, lemma_div_t_bounds, sdiv128};
use crate::point::Point;
use crate::ray::{spec_along, Ray};
use crate::vector::Vector;
use crate::SCALE;
use vstd::prelude::*;

verus! {

/// The largest ray parameter the slab test reasons about; every hit the
/// shapes produce stays far below it.
pub const T_CAP: i64 = 0x4000_0000_0000;

#[derive(Clone, Copy, PartialEq, Eq, Structural, Debug)]
pub struct BoundBox {
    pub p_min: Point,
    pub p_max: Point,
}

/// One axis of the containment test: the coordinate of the ray point at
/// parameter `t` lies between `mn` and `mx`.
pub open spec fn axis_contained(mn: int, mx: int, o: int, d: int, t: int) -> bool {
    mn <= o + div_t(d * t, SCALE as int) <= mx
}

impl BoundBox {
    /// A solid box: ordered, in-range corners.
    pub open spec fn wf(self) -> bool {
        &&& self.p_min.radius_vector.bounded(0x4000_0000)
        &&& self.p_max.radius_vector.bounded(0x4000_0000)
        &&& self.p_min.radius_vector.x <= self.p_max.radius_vector.x
        &&& self.p_min.radius_vector.y <= self.p_max.radius_vector.y
        &&& self.p_min.radius_vector.z <= self.p_max.radius_vector.z
    }

    /// The empty box: the identity of `union`.
    pub open spec fn is_empty(self) -> bool {
        self.p_min.radius_vector.x == i64::MAX && self.p_min.radius_vector.y == i64::MAX
            && self.p_min.radius_vector.z == i64::MAX && self.p_max.radius_vector.x == i64::MIN
            && self.p_max.radius_vector.y == i64::MIN && self.p_max.radius_vector.z == i64::MIN
    }

    /// The point lies inside the box (componentwise, inclusive).
    pub open spec fn contains(self, p: Point) -> bool {
        &&& self.p_min.radius_vector.x <= p.radius_vector.x <= self.p_max.radius_vector.x
        &&& self.p_min.radius_vector.y <= p.radius_vector.y <= self.p_max.radius_vector.y
        &&& self.p_min.radius_vector.z <= p.radius_vector.z <= self.p_max.radius_vector.z
    }

    /// Every point of `self` lies in `other`.
    pub open spec fn subset_of(self, other: BoundBox) -> bool {
        &&& other.p_min.radius_vector.x <= self.p_min.radius_vector.x
        &&& other.p_min.radius_vector.y <= self.p_min.radius_vector.y
        &&& other.p_min.radius_vector.z <= self.p_min.radius_vector.z
        &&& self.p_max.radius_vector.x <= other.p_max.radius_vector.x
        &&& self.p_max.radius_vector.y <= other.p_max.radius_vector.y
        &&& self.p_max.radius_vector.z <= other.p_max.radius_vector.z
    }

    pub fn empty() -> (r: BoundBox)
        ensures
            r.is_empty(),
    {
        BoundBox {
            p_min: Point { radius_vector: Vector { x: i64::MAX, y: i64::MAX, z: i64::MAX } },
            p_max: Point { radius_vector: Vector { x: i64::MIN, y: i64::MIN, z: i64::MIN } },
        }
    }

    /// The box of a single point.
    pub fn of_point(p: Point) -> (r: BoundBox)
        ensures
            r.p_min == p,
            r.p_max == p,
    {
        BoundBox { p_min: p, p_max: p }
    }

    /// The smallest box containing both arguments: componentwise minima and
    /// maxima of the corners.
    pub fn union(&self, rhs: &BoundBox) -> (r: BoundBox)
        ensures
            r == spec_union(*self, *rhs),
            self.subset_of(r),
            rhs.subset_of(r),
    {
        let a = self.p_min.radius_vector;
        let b = rhs.p_min.radius_vector;
        let c = self.p_max.radius_vector;
        let d = rhs.p_max.radius_vector;
        BoundBox {
            p_min: Point {
                radius_vector: Vector {
                    x: if a.x <= b.x {
                        a.x
                    } else {
                        b.x
                    },
                    y: if a.y <= b.y {
                        a.y
                    } else {
                        b.y
                    },
                    z: if a.z <= b.z {
                        a.z
                    } else {
                        b.z
                    },
                },
            },
            p_max: Point {
                radius_vector: Vector {
                    x: if c.x >= d.x {
                        c.x
                    } else {
                        d.x
                    },
                    y: if c.y >= d.y {
                        c.y
                    } else {
                        d.y
                    },
                    z: if c.z >= d.z {
                        c.z
                    } else {
                        d.z
                    },
                },
            },
        }
    }

    /// The midpoint of the box, each coordinate rounded down.
    pub fn center(&self) -> (r: Point)
        requires
            self.wf(),
        ensures
            r.radius_vector.x == self.p_min.radius_vector.x + (self.p_max.radius_vector.x
                - self.p_min.radius_vector.x) / 2,
            r.radius_vector.y == self.p_min.radius_vector.y + (self.p_max.radius_vector.y
                - self.p_min.radius_vector.y) / 2,
            r.radius_vector.z == self.p_min.radius_vector.z + (self.p_max.radius_vector.z
                - self.p_min.radius_vector.z) / 2,
            r.radius_vector.bounded(0x4000_0000),
    {
        let mn = self.p_min.radius_vector;
        let mx = self.p_max.radius_vector;
        Point {
            radius_vector: Vector {
                x: mn.x + (mx.x - mn.x) / 2,
                y: mn.y + (mx.y - mn.y) / 2,
                z: mn.z + (mx.z - mn.z) / 2,
            },
        }
    }

    /// The axis of greatest extent: x wins ties over y, y over z.
    pub fn longext_axis(&self) -> (r: usize)
        requires
            self.wf(),
        ensures
            r == spec_longext_axis(*self),
            r < 3,
    {
        let d = self.p_max.sub(self.p_min);
        if d.x > d.y && d.x > d.z {
            0
        } else if d.y > d.z {
            1
        } else {
            2
        }
    }

    /// The conservative slab test. The contract is deliberately
    /// one-directional: a `false` answer is a proof that no ray point at a
    /// parameter in `[0, max_t]` (up to `T_CAP`) lies in the box, which is
    /// the fact tree pruning rests on. On the `true` side the test promises
    /// nothing — it widens every slab by one raw unit and one rounding
    /// step, so a `true` may be a near miss; a false positive costs a
    /// wasted shape test, never a wrong image.
    pub fn is_intersected(&self, ray: &Ray, max_t: i64) -> (r: bool)
        requires
            self.wf(),
            ray.wf(),
            ray.origin.radius_vector.bounded(0x4000_0000),
            max_t >= 0,
        ensures
            !r ==> forall|t: int|
                0 <= t <= max_t && t <= T_CAP as int ==> !self.contains(
                    #[trigger] spec_along(*ray, t),
                ),
    {
        let o = ray.origin.radius_vector;
        let dir = ray.direction.direction;
        let mn = self.p_min.radius_vector;
        let mx = self.p_max.radius_vector;

        let p1 = slab_axis(mn.x, mx.x, o.x, dir.x, 0, max_t);
        if p1.1 < p1.0 {
            proof {
                assert forall|t: int|
                    0 <= t <= max_t && t <= T_CAP as int implies !self.contains(
                    #[trigger] spec_along(*ray, t),
                ) by {
                    if self.contains(spec_along(*ray, t)) {
                        lemma_along_coords(*ray, t);
                        assert(axis_contained(mn.x as int, mx.x as int, o.x as int, dir.x as int, t));
                    }
                }
            }
            return false;
        }
        let p2 = slab_axis(mn.y, mx.y, o.y, dir.y, p1.0, p1.1);
        if p2.1 < p2.0 {
            proof {
                assert forall|t: int|
                    0 <= t <= max_t && t <= T_CAP as int implies !self.contains(
                    #[trigger] spec_along(*ray, t),
                ) by {
                    if self.contains(spec_along(*ray, t)) {
                        lemma_along_coords(*ray, t);
                        assert(axis_contained(mn.x as int, mx.x as int, o.x as int, dir.x as int, t));
                        assert(axis_contained(mn.y as int, mx.y as int, o.y as int, dir.y as int, t));
                    }
                }
            }
            return false;
        }
        let p3 = slab_axis(mn.z, mx.z, o.z, dir.z, p2.0, p2.1);
        if p3.1 < p3.0 {
            proof {
                assert forall|t: int|
                    0 <= t <= max_t && t <= T_CAP as int implies !self.contains(
                    #[trigger] spec_along(*ray, t),
                ) by {
                    if self.contains(spec_along(*ray, t)) {
                        lemma_along_coords(*ray, t);
                        assert(axis_contained(mn.x as int, mx.x as int, o.x as int, dir.x as int, t));
                        assert(axis_contained(mn.y as int, mx.y as int, o.y as int, dir.y as int, t));
                        assert(axis_contained(mn.z as int, mx.z as int, o.z as int, dir.z as int, t));
                    }
                }
            }
            return false;
        }
        true
    }
}

/// The componentwise union of two boxes, at the spec level.
pub open spec fn spec_union(a: BoundBox, b: BoundBox) -> BoundBox {
    BoundBox {
        p_min: Point {
            radius_vector: Vector {
                x: if a.p_min.radius_vector.x <= b.p_min.radius_vector.x {
                    a.p_min.radius_vector.x
                } else {
                    b.p_min.radius_vector.x
                },
                y: if a.p_min.radius_vector.y <= b.p_min.radius_vector.y {
                    a.p_min.radius_vector.y
                } else {
                    b.p_min.radius_vector.y
                },
                z: if a.p_min.radius_vector.z <= b.p_min.radius_vector.z {
                    a.p_min.radius_vector.z
                } else {
                    b.p_min.radius_vector.z
                },
            },
        },
        p_max: Point {
            radius_vector: Vector {
                x: if a.p_max.radius_vector.x >= b.p_max.radius_vector.x {
                    a.p_max.radius_vector.x
                } else {
                    b.p_max.radius_vector.x
                },
                y: if a.p_max.radius_vector.y >= b.p_max.radius_vector.y {
                    a.p_max.radius_vector.y
                } else {
                    b.p_max.radius_vector.y
                },
                z: if a.p_max.radius_vector.z >= b.p_max.radius_vector.z {
                    a.p_max.radius_vector.z
                } else {
                    b.p_max.radius_vector.z
                },
            },
        },
    }
}

/// The longest axis, at the spec level.
pub open spec fn spec_longext_axis(b: BoundBox) -> usize {
    let dx = b.p_max.radius_vector.x - b.p_min.radius_vector.x;
    let dy = b.p_max.radius_vector.y - b.p_min.radius_vector.y;
    let dz = b.p_max.radius_vector.z - b.p_min.radius_vector.z;
    if dx > dy && dx > dz {
        0
    } else if dy > dz {
        1
    } else {
        2
    }
}

/// The coordinates of a ray point, spelled out per axis.
proof fn lemma_along_coords(ray: Ray, t: int)
    requires
        ray.wf(),
        ray.origin.radius_vector.bounded(0x4000_0000),
        0 <= t <= T_CAP as int,
    ensures
        spec_along(ray, t).radius_vector.x == ray.origin.radius_vector.x + div_t(
            ray.direction.direction.x * t,
            SCALE as int,
        ),
        spec_along(ray, t).radius_vector.y == ray.origin.radius_vector.y + div_t(
            ray.direction.direction.y * t,
            SCALE as int,
        ),
        spec_along(ray, t).radius_vector.z == ray.origin.radius_vector.z + div_t(
            ray.direction.direction.z * t,
            SCALE as int,
        ),
{
    lemma_along_coord(ray.origin.radius_vector.x as int, ray.direction.direction.x as int, t);
    lemma_along_coord(ray.origin.radius_vector.y as int, ray.direction.direction.y as int, t);
    lemma_along_coord(ray.origin.radius_vector.z as int, ray.direction.direction.z as int, t);
}

/// One coordinate of a ray point stays in `i64` range.
proof fn lemma_along_coord(o: int, d: int, t: int)
    requires
        -0x4000_0000 <= o <= 0x4000_0000,
        -(SCALE as int) <= d <= SCALE as int,
        0 <= t <= T_CAP as int,
    ensures
        i64::MIN <= o + div_t(d * t, SCALE as int) <= i64::MAX,
        -(T_CAP as int) - 1 <= div_t(d * t, SCALE as int) <= (T_CAP as int) + 1,
        -0x8000_0000_0000_0000_0000 <= d * t <= 0x8000_0000_0000_0000_0000,
{
    lemma_div_t_bounds(d * t, SCALE as int);
    assert(-(SCALE as int) * (T_CAP as int) <= d * t <= (SCALE as int) * (T_CAP as int))
        by (nonlinear_arith)
        requires
            -(SCALE as int) <= d <= SCALE as int,
            0 <= t <= T_CAP as int,
    ;
    let q = div_t(d * t, SCALE as int);
    assert(-(T_CAP as int) - 1 <= q <= (T_CAP as int) + 1) by (nonlinear_arith)
        requires
            (d * t) - (SCALE - 1) <= (SCALE as int) * q <= (d * t) + (SCALE - 1),
            -(SCALE as int) * (T_CAP as int) <= d * t <= (SCALE as int) * (T_CAP as int),
            SCALE == 65536,
            T_CAP == 0x4000_0000_0000i64,
    ;
}

/// One axis of the slab test: narrows `[lo, hi]` so that every parameter
/// whose ray point is inside this axis's slab stays inside the interval.
fn slab_axis(mn: i64, mx: i64, o: i64, d: i64, lo: i64, hi: i64) -> (r: (i64, i64))
    requires
        -0x4000_0000 <= mn <= 0x4000_0000,
        -0x4000_0000 <= mx <= 0x4000_0000,
        -0x4000_0000 <= o <= 0x4000_0000,
        -SCALE <= d <= SCALE,
    ensures
        forall|t: int|
            0 <= t <= T_CAP as int && lo <= t <= hi && #[trigger] axis_contained(
                mn as int,
                mx as int,
                o as int,
                d as int,
                t,
            ) ==> r.0 <= t <= r.1,
{
    if d == 0 {
        if o < mn || o > mx {
            proof {
                assert forall|t: int|
                    0 <= t <= T_CAP as int && axis_contained(
                        mn as int,
                        mx as int,
                        o as int,
                        d as int,
                        t,
                    ) implies false by {
                    assert(div_t(0 * t, SCALE as int) == 0);
                }
            }
            (1, 0)
        } else {
            (lo, hi)
        }
    } else {
        let e: i64 = if d > 0 {
            d
        } else {
            -d
        };
        let an: i64 = if d > 0 {
            mn - o - 1
        } else {
            o - mx - 1
        };
        let af: i64 = if d > 0 {
            mx - o + 1
        } else {
            o - mn + 1
        };
        proof {
            lemma_div_small(an as int * SCALE as int, e as int);
            lemma_div_small(af as int * SCALE as int, e as int);
        }
        let tn: i64 = sdiv128((an as i128) * (SCALE as i128), e as i128) as i64 - 1;
        let tf: i64 = sdiv128((af as i128) * (SCALE as i128), e as i128) as i64 + 1;
        proof {
            assert forall|t: int|
                0 <= t <= T_CAP as int && axis_contained(
                    mn as int,
                    mx as int,
                    o as int,
                    d as int,
                    t,
                ) implies tn <= t <= tf by {
                lemma_axis_window(mn as int, mx as int, o as int, d as int, t);
            }
        }
        let nlo: i64 = if tn > lo {
            tn
        } else {
            lo
        };
        let nhi: i64 = if tf < hi {
            tf
        } else {
            hi
        };
        (nlo, nhi)
    }
}

/// A quotient is no larger in magnitude than its dividend.
proof fn lemma_div_small(a: int, b: int)
    requires
        b >= 1,
        -0x8000_0000_0000_0000 <= a <= 0x8000_0000_0000_0000,
    ensures
        -0x8000_0000_0000_0000 <= div_t(a, b) <= 0x8000_0000_0000_0000,
{
    lemma_div_t_bounds(a, b);
    let q = div_t(a, b);
    assert(-0x8000_0000_0000_0000 <= q <= 0x8000_0000_0000_0000) by (nonlinear_arith)
        requires
            a - (b - 1) <= b * q <= a + (b - 1),
            a >= 0 ==> b * q <= a && q >= 0,
            a <= 0 ==> a <= b * q && q <= 0,
            b >= 1,
            -0x8000_0000_0000_0000 <= a <= 0x8000_0000_0000_0000,
    ;
}

/// A parameter whose ray point lies inside one axis's slab is bracketed by
/// the conservative near and far division results for that axis.
proof fn lemma_axis_window(mn: int, mx: int, o: int, d: int, t: int)
    requires
        -0x4000_0000 <= mn <= 0x4000_0000,
        -0x4000_0000 <= mx <= 0x4000_0000,
        -0x4000_0000 <= o <= 0x4000_0000,
        -(SCALE as int) <= d <= SCALE as int,
        d != 0,
        0 <= t <= T_CAP as int,
        axis_contained(mn, mx, o, d, t),
    ensures
        ({
            let e = if d > 0 {
                d
            } else {
                -d
            };
            let an = if d > 0 {
                mn - o - 1
            } else {
                o - mx - 1
            };
            let af = if d > 0 {
                mx - o + 1
            } else {
                o - mn + 1
            };
            div_t(an * SCALE, e) - 1 <= t <= div_t(af * SCALE, e) + 1
        }),
{
    let e = if d > 0 {
        d
    } else {
        -d
    };
    let an = if d > 0 {
        mn - o - 1
    } else {
        o - mx - 1
    };
    let af = if d > 0 {
        mx - o + 1
    } else {
        o - mn + 1
    };
    let w = div_t(d * t, SCALE as int);
    lemma_div_t_bounds(d * t, SCALE as int);
    if d > 0 {
        assert(an * SCALE <= e * t && e * t <= af * SCALE) by (nonlinear_arith)
            requires
                e == d,
                an == mn - o - 1,
                af == mx - o + 1,
                mn <= o + w <= mx,
                (d * t) - (SCALE - 1) <= (SCALE as int) * w <= (d * t) + (SCALE - 1),
                SCALE == 65536,
        ;
    } else {
        assert(d * t == -(e * t)) by (nonlinear_arith)
            requires
                e == -d,
        ;
        assert(an * SCALE <= e * t && e * t <= af * SCALE) by (nonlinear_arith)
            requires
                e == -d,
                d * t == -(e * t),
                an == o - mx - 1,
                af == o - mn + 1,
                mn <= o + w <= mx,
                (d * t) - (SCALE - 1) <= (SCALE as int) * w <= (d * t) + (SCALE - 1),
                SCALE == 65536,
        ;
    }
    lemma_div_t_bounds(an * SCALE, e);
    lemma_div_t_bounds(af * SCALE, e);
    assert(div_t(an * SCALE, e) - 1 <= t) by (nonlinear_arith)
        requires
            e >= 1,
            t >= 0,
            an * SCALE <= e * t,
            e * div_t(an * SCALE, e) <= an * SCALE + (e - 1),
    ;
    assert(t <= div_t(af * SCALE, e) + 1) by (nonlinear_arith)
        requires
            e >= 1,
            t >= 0,
            e * t <= af * SCALE,
            af * SCALE - (e - 1) <= e * div_t(af * SCALE, e),
    ;
}

} // verus!
