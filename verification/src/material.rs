//! Surface materials: procedural textures plus the diffuse, specular and
//! reflectance coefficients the integrator uses.

use crate::color::Color;
use crate::math::pos_mod;
use crate::shape::Intersection;
use crate::SCALE;
use vstd::prelude::*;

verus! {

/// A procedural texture: a value sampled at a hit point.
pub trait Texture<T: Copy>: Sized {
    /// What `at` returns.
    spec fn spec_at(&self, i: Intersection) -> T;

    fn at(&self, i: &Intersection) -> (r: T)
        requires
            i.point.radius_vector.bounded(0x4000_0000),
        ensures
            r == self.spec_at(*i),
    ;
}

/// The same value everywhere.
pub struct ConstTextute<T: Copy>(pub T);

impl<T: Copy> Texture<T> for ConstTextute<T> {
    open spec fn spec_at(&self, i: Intersection) -> T {
        self.0
    }

    fn at(&self, i: &Intersection) -> (r: T) {
        self.0
    }
}

/// A 3D checkerboard with cells one world unit wide.
pub struct Checkboard3d<T: Copy> {
    pub black: T,
    pub white: T,
}

/// The coordinate falls in the odd half of its two-unit period.
pub open spec fn spec_is_odd(c: int) -> bool {
    c % (2 * SCALE as int) >= SCALE as int
}

impl<T: Copy> Texture<T> for Checkboard3d<T> {
    open spec fn spec_at(&self, i: Intersection) -> T {
        let p = i.point.radius_vector;
        if spec_is_odd(p.x as int) ^ spec_is_odd(p.y as int) ^ spec_is_odd(p.z as int) {
            self.white
        } else {
            self.black
        }
    }

    fn at(&self, i: &Intersection) -> (r: T) {
        let p = i.point.radius_vector;
        let ox = pos_mod(p.x, 2 * SCALE) >= SCALE;
        let oy = pos_mod(p.y, 2 * SCALE) >= SCALE;
        let oz = pos_mod(p.z, 2 * SCALE) >= SCALE;
        if ox ^ oy ^ oz {
            self.white
        } else {
            self.black
        }
    }
}

/// A material's texture: one of the closed set of procedural textures.
pub enum TextureKind {
    Const(ConstTextute<Color>),
    Checkboard(Checkboard3d<Color>),
}

impl TextureKind {
    pub open spec fn wf(self) -> bool {
        match self {
            TextureKind::Const(t) => t.0.wf(),
            TextureKind::Checkboard(t) => t.black.wf() && t.white.wf(),
        }
    }

    /// What `color_at` returns.
    pub open spec fn spec_color_at(self, i: Intersection) -> Color {
        match self {
            TextureKind::Const(t) => t.spec_at(i),
            TextureKind::Checkboard(t) => t.spec_at(i),
        }
    }

    /// The texture's color at a hit point.
    pub fn color_at(&self, i: &Intersection) -> (r: Color)
        requires
            self.wf(),
            i.point.radius_vector.bounded(0x4000_0000),
        ensures
            r == self.spec_color_at(*i),
            r.wf(),
    {
        match self {
            TextureKind::Const(t) => t.at(i),
            TextureKind::Checkboard(t) => t.at(i),
        }
    }
}

/// A surface material: a texture and the shading coefficients.
pub struct Material {
    pub color: TextureKind,
    pub diffuse: i64,
    pub specular: u32,
    pub reflectance: i64,
}

impl Material {
    /// Well-formed material: coefficients in `[0, 1]` fixed point, a
    /// well-formed texture.
    pub open spec fn wf(self) -> bool {
        &&& self.color.wf()
        &&& 0 <= self.diffuse <= SCALE
        &&& 0 <= self.reflectance <= SCALE
    }
}

} // verus!
