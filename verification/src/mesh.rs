//! A triangle mesh: a bounding-volume hierarchy specialized to triangles,
//! exposing the same intersection contract as any primitive shape.

use crate::bvh::{is_min_hit, Bvh};
use crate::ray::Ray;
use crate::shape::Intersection;
use crate::triangle::Triangle;
use vstd::prelude::*;

verus! {

pub struct Mesh {
    pub index: Bvh<Triangle>,
}

impl Mesh {
    pub open spec fn wf(&self) -> bool {
        self.index.wf()
    }

    /// The triangles the mesh holds.
    pub open spec fn spec_triangles(&self) -> Seq<Triangle> {
        self.index.spec_shapes()
    }

    /// Builds the spatial index over a non-empty triangle list; the mesh
    /// holds exactly the given triangles.
    pub fn new(triangles: Vec<Triangle>) -> (r: Mesh)
        requires
            triangles@.len() >= 1,
            forall|i: int| 0 <= i < triangles@.len() ==> (#[trigger] triangles@[i]).wf(),
        ensures
            r.wf(),
            r.spec_triangles().to_multiset() == triangles@.to_multiset(),
    {
        Mesh { index: Bvh::new(triangles) }
    }

    /// The nearest triangle hit, exactly as a brute-force scan over all the
    /// mesh's triangles would report it.
    pub fn intersect(&self, ray: &Ray) -> (r: Option<Intersection>)
        requires
            self.wf(),
            ray.wf(),
            ray.origin.radius_vector.bounded(0x4000_0000),
        ensures
            is_min_hit(self.spec_triangles(), *ray, r),
    {
        self.index.intersect(ray)
    }
}

} // verus!
