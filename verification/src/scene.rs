//! The scene: a closed set of primitive kinds and its aggregate.
use vstd::prelude::*;

verus! {

use crate::math::{Ray, RayV};
use crate::hit::{HitRecord, HitV, Hittable};
use crate::prim::{Sphere, Tri};
use crate::model::Model;
use crate::scan::{
    all_wf, seq_hit_spec, hit_scan, lemma_seq_hit_valid, lemma_seq_hit_restrict,
};

/// One primitive of a scene: the fixed set of kinds a ray can intersect,
/// dispatched by a tag rather than through trait objects.
pub enum Prim {
    Sphere(Sphere),
    Tri(Tri),
    Mesh(Model),
}

impl Hittable for Prim {
    open spec fn wf(&self) -> bool {
        match self {
            Prim::Sphere(s) => s.wf(),
            Prim::Tri(t) => t.wf(),
            Prim::Mesh(m) => m.wf(),
        }
    }

    open spec fn hit_spec(&self, ray: RayV, t_min: int, t_max: int) -> Option<HitV> {
        match self {
            Prim::Sphere(s) => s.hit_spec(ray, t_min, t_max),
            Prim::Tri(t) => t.hit_spec(ray, t_min, t_max),
            Prim::Mesh(m) => m.hit_spec(ray, t_min, t_max),
        }
    }

    proof fn lemma_hit_valid(&self, ray: RayV, t_min: int, t_max: int) {
        match self {
            Prim::Sphere(s) => s.lemma_hit_valid(ray, t_min, t_max),
            Prim::Tri(t) => t.lemma_hit_valid(ray, t_min, t_max),
            Prim::Mesh(m) => m.lemma_hit_valid(ray, t_min, t_max),
        }
    }

    proof fn lemma_hit_restrict(&self, ray: RayV, t_min: int, t_max: int, t2: int) {
        match self {
            Prim::Sphere(s) => s.lemma_hit_restrict(ray, t_min, t_max, t2),
            Prim::Tri(t) => t.lemma_hit_restrict(ray, t_min, t_max, t2),
            Prim::Mesh(m) => m.lemma_hit_restrict(ray, t_min, t_max, t2),
        }
    }

    fn hit(&self, ray: &Ray, t_min: i128, t_max: i128) -> (r: Option<HitRecord>) {
        match self {
            Prim::Sphere(s) => s.hit(ray, t_min, t_max),
            Prim::Tri(t) => t.hit(ray, t_min, t_max),
            Prim::Mesh(m) => m.hit(ray, t_min, t_max),
        }
    }
}

/// A whole scene intersects as the closest-hit scan of its primitives.
impl Hittable for Vec<Prim> {
    open spec fn wf(&self) -> bool {
        all_wf(self@)
    }

    open spec fn hit_spec(&self, ray: RayV, t_min: int, t_max: int) -> Option<HitV> {
        seq_hit_spec(self@, ray, t_min, t_max)
    }

    proof fn lemma_hit_valid(&self, ray: RayV, t_min: int, t_max: int) {
        lemma_seq_hit_valid(self@, ray, t_min, t_max);
    }

    proof fn lemma_hit_restrict(&self, ray: RayV, t_min: int, t_max: int, t2: int) {
        lemma_seq_hit_restrict(self@, ray, t_min, t_max, t2);
    }

    fn hit(&self, ray: &Ray, t_min: i128, t_max: i128) -> (r: Option<HitRecord>) {
        hit_scan(self, ray, t_min, t_max)
    }
}

} // verus!
