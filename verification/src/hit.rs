//! The intersection protocol: hit records and the `Hittable` contract.
use vstd::prelude::*;

verus! {

use crate::fixed::{SCALE, COORD_MAX, T_LIMIT};
use crate::math::{Vec3, Point, Color, Ray, RayV, V3, bounded3};

/// Largest magnitude of a component of a surface normal handed out in a hit
/// record: either a normalized vector, or (for a degenerate primitive) the
/// difference of two well-formed points.
pub const NORM_MAX: i128 = 536870912;

/// A surface material: a single diffuse reflectance color.
#[derive(Clone, Copy, Debug)]
pub struct Material {
    pub diffuse: Color,
}

/// Whether a color is a valid reflectance: every channel within `[0, SCALE]`.
pub open spec fn color_ok(c: V3) -> bool {
    &&& 0 <= c.x <= SCALE as int
    &&& 0 <= c.y <= SCALE as int
    &&& 0 <= c.z <= SCALE as int
}

/// Whether a ray is well-formed: origin and direction within world bounds.
pub open spec fn ray_wf(r: RayV) -> bool {
    &&& bounded3(r.origin, COORD_MAX as int)
    &&& bounded3(r.direction, COORD_MAX as int)
}

/// The result of a successful intersection test.
#[derive(Clone, Copy, Debug)]
pub struct HitRecord {
    /// The hit point.
    pub p: Point,
    /// The surface material at the hit point.
    pub material: Material,
    /// The surface normal at the hit point.
    pub n: Vec3,
    /// The ray parameter of the hit point.
    pub t: i128,
    /// Whether the ray approaches from the outward-normal side. Computed on
    /// every hit but consumed by nothing downstream; kept for a future
    /// lighting model.
    pub front_face: bool,
}

/// The mathematical model of a hit record.
pub struct HitV {
    pub p: V3,
    pub n: V3,
    pub t: int,
    pub front_face: bool,
    pub diffuse: V3,
}

impl View for HitRecord {
    type V = HitV;

    open spec fn view(&self) -> HitV {
        HitV {
            p: self.p@,
            n: self.n@,
            t: self.t as int,
            front_face: self.front_face,
            diffuse: self.material.diffuse@,
        }
    }
}

/// The model of an optional hit record.
pub open spec fn opt_hit_view(r: Option<HitRecord>) -> Option<HitV> {
    match r {
        Some(h) => Some(h@),
        None => None,
    }
}

/// The hit as it would be reported under a tighter upper bound `t2`:
/// unchanged if it already lies within, gone otherwise.
pub open spec fn restrict_hit(r: Option<HitV>, t2: int) -> Option<HitV> {
    match r {
        Some(h) => if h.t <= t2 {
            Some(h)
        } else {
            None
        },
        None => None,
    }
}

/// Whether a hit is valid for the interval `(t_min, t_max]`: the parameter
/// lies in the interval and the record's fields are within world bounds.
pub open spec fn hit_ok(r: Option<HitV>, t_min: int, t_max: int) -> bool {
    match r {
        Some(h) => {
            &&& t_min < h.t <= t_max
            &&& bounded3(h.p, COORD_MAX as int)
            &&& bounded3(h.n, NORM_MAX as int)
            &&& color_ok(h.diffuse)
        },
        None => true,
    }
}

/// Anything a ray can intersect.
///
/// `hit` returns the closest intersection with ray parameter in
/// `(t_min, t_max]`, or nothing. Its exact value is pinned down by the
/// implementor's `hit_spec`; every implementor also proves that its hits are
/// valid for the queried interval, and that tightening the upper bound only
/// filters the reported hit (the two facts the closest-hit argument of an
/// aggregate rests on).
pub trait Hittable: Sized {
    /// Well-formedness: geometry and material within world bounds.
    spec fn wf(&self) -> bool;

    /// The exact intersection this implementor reports.
    spec fn hit_spec(&self, ray: RayV, t_min: int, t_max: int) -> Option<HitV>;

    /// Every reported hit is valid for the queried interval.
    proof fn lemma_hit_valid(&self, ray: RayV, t_min: int, t_max: int)
        requires
            self.wf(),
        ensures
            hit_ok(self.hit_spec(ray, t_min, t_max), t_min, t_max),
    ;

    /// Tightening the upper bound of the interval only filters the hit.
    proof fn lemma_hit_restrict(&self, ray: RayV, t_min: int, t_max: int, t2: int)
        requires
            self.wf(),
            t_min <= t2 <= t_max,
        ensures
            self.hit_spec(ray, t_min, t2) == restrict_hit(self.hit_spec(ray, t_min, t_max), t2),
    ;

    /// The closest intersection with ray parameter in `(t_min, t_max]`.
    fn hit(&self, ray: &Ray, t_min: i128, t_max: i128) -> (r: Option<HitRecord>)
        requires
            self.wf(),
            ray_wf(ray@),
            0 <= t_min <= t_max <= T_LIMIT,
        ensures
            opt_hit_view(r) == self.hit_spec(ray@, t_min as int, t_max as int),
    ;
}

} // verus!
