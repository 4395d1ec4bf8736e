//! Geometric primitives: spheres and triangles.
use vstd::prelude::*;

verus! {

use crate::fixed::{
    SCALE, COORD_MAX, tdiv, fxmul, fxdiv, fxsqrt, lemma_isqrt_bounds, lemma_fxmul_bound,
    lemma_fxmul_nonneg, lemma_tdiv_mono, mul_fx, div_fx, sqrt_fx,
};
use vstd::arithmetic::div_mod::lemma_fundamental_div_mod;
use crate::math::{
    Vec3, Point, Color, Ray, RayV, V3, bounded3, v3_sub, v3_add, dot3, cross3, ls3, unit3, ray_at,
    lemma_ls3_bounds, lemma_ls3_nonneg, lemma_dot3_bound, lemma_cross3_bound, lemma_unit3_bounded,
};
use crate::hit::{Material, HitRecord, HitV, Hittable, color_ok, ray_wf};

/// A sphere: a center, a radius and a diffuse material.
#[derive(Clone, Copy, Debug)]
pub struct Sphere {
    pub center: Point,
    pub radius: i128,
    pub material: Material,
}

/// The mathematical model of a sphere.
pub struct SphereV {
    pub center: V3,
    pub radius: int,
    pub diffuse: V3,
}

impl View for Sphere {
    type V = SphereV;

    open spec fn view(&self) -> SphereV {
        SphereV { center: self.center@, radius: self.radius as int, diffuse: self.material.diffuse@ }
    }
}

/// The quadratic coefficient of the sphere equation: the squared length of
/// the ray direction.
pub open spec fn sphere_a(ray: RayV) -> int {
    dot3(ray.direction, ray.direction)
}

/// Half the linear coefficient of the sphere equation.
pub open spec fn sphere_half_b(s: SphereV, ray: RayV) -> int {
    dot3(v3_sub(ray.origin, s.center), ray.direction)
}

/// The constant coefficient of the sphere equation.
pub open spec fn sphere_c(s: SphereV, ray: RayV) -> int {
    dot3(v3_sub(ray.origin, s.center), v3_sub(ray.origin, s.center)) - fxmul(s.radius, s.radius)
}

/// The half-b discriminant of the sphere equation: negative exactly when the
/// ray's line misses the sphere.
pub open spec fn sphere_disc(s: SphereV, ray: RayV) -> int {
    fxmul(sphere_half_b(s, ray), sphere_half_b(s, ray)) - fxmul(sphere_a(ray), sphere_c(s, ray))
}

/// The smaller root of the sphere equation: the near intersection.
pub open spec fn sphere_root_near(s: SphereV, ray: RayV) -> int {
    fxdiv(-sphere_half_b(s, ray) - fxsqrt(sphere_disc(s, ray)), sphere_a(ray))
}

/// The larger root of the sphere equation: the far intersection.
pub open spec fn sphere_root_far(s: SphereV, ray: RayV) -> int {
    fxdiv(-sphere_half_b(s, ray) + fxsqrt(sphere_disc(s, ray)), sphere_a(ray))
}

/// The record a sphere reports for a hit at parameter `t`, or nothing when
/// the hit point falls outside world bounds.
pub open spec fn sphere_record(s: SphereV, ray: RayV, t: int) -> Option<HitV> {
    let p = ray_at(ray, t);
    if !bounded3(p, COORD_MAX as int) {
        None
    } else {
        let n = unit3(v3_sub(p, s.center));
        Some(
            HitV {
                p,
                n,
                t,
                front_face: dot3(ray.direction, n) > 0,
                diffuse: s.diffuse,
            },
        )
    }
}

/// The intersection a sphere reports on `(t_min, t_max]`: nothing when the
/// discriminant is negative (or the direction too short to divide by), else
/// the near root if it lies in the interval, falling back to the far root.
pub open spec fn sphere_hit_spec(s: SphereV, ray: RayV, t_min: int, t_max: int) -> Option<HitV> {
    let a = sphere_a(ray);
    let disc = sphere_disc(s, ray);
    if disc < 0 || a == 0 {
        None
    } else {
        let ta = sphere_root_near(s, ray);
        let tb = sphere_root_far(s, ray);
        let t = if t_min < ta && ta <= t_max {
            ta
        } else {
            tb
        };
        if !(t_min < t && t <= t_max) {
            None
        } else {
            sphere_record(s, ray, t)
        }
    }
}

impl Sphere {
    /// A sphere with the given center, radius and diffuse color.
    pub fn new(center: Point, radius: i128, base_color: Color) -> (r: Sphere)
        requires
            bounded3(center@, COORD_MAX as int),
            0 <= radius <= COORD_MAX,
            color_ok(base_color@),
        ensures
            r@ == (SphereV { center: center@, radius: radius as int, diffuse: base_color@ }),
            r.wf(),
    {
        Sphere { center, radius, material: Material { diffuse: base_color } }
    }
}

/// Bounds on the coefficients of the sphere equation for a well-formed
/// sphere and ray.
proof fn lemma_sphere_coeff_bounds(s: SphereV, ray: RayV)
    requires
        bounded3(s.center, COORD_MAX as int),
        0 <= s.radius <= COORD_MAX as int,
        ray_wf(ray),
    ensures
        0 <= sphere_a(ray) <= 216172782113783808,
        -432345564227567616 <= sphere_half_b(s, ray) <= 432345564227567616,
        -1000000000000000000 <= sphere_c(s, ray) <= 1000000000000000000,
        -500000000000000000000000000000000 <= sphere_disc(s, ray)
            <= 500000000000000000000000000000000,
{
    let oc = v3_sub(ray.origin, s.center);
    lemma_ls3_bounds(ray.direction, COORD_MAX as int);
    lemma_dot3_bound(oc, ray.direction, 536870912, COORD_MAX as int);
    lemma_dot3_bound(oc, oc, 536870912, 536870912);
    lemma_fxmul_bound(s.radius, s.radius, COORD_MAX as int, COORD_MAX as int, 70368744177664);
    lemma_fxmul_bound(
        sphere_half_b(s, ray),
        sphere_half_b(s, ray),
        432345564227567616,
        432345564227567616,
        200000000000000000000000000000000,
    );
    lemma_fxmul_bound(
        sphere_a(ray),
        sphere_c(s, ray),
        216172782113783808,
        1000000000000000000,
        (216172782113783808int * 1000000000000000000) / 1024 + 1,
    );
}

/// A ray whose line misses the sphere is reported as a miss: a negative
/// discriminant (the exact test the intersection runs) yields no hit, on any
/// interval.
pub proof fn lemma_sphere_miss(s: SphereV, ray: RayV, t_min: int, t_max: int)
    requires
        sphere_disc(s, ray) < 0,
    ensures
        sphere_hit_spec(s, ray, t_min, t_max) == None::<HitV>,
{
}

/// A ray that starts on or outside the sphere and does not run toward it
/// never hits, on any interval of nonnegative parameters: with the constant
/// coefficient and the half linear coefficient both nonnegative, neither root
/// of the sphere equation is positive.
pub proof fn lemma_sphere_points_away(s: SphereV, ray: RayV, t_min: int, t_max: int)
    requires
        0 <= sphere_half_b(s, ray),
        0 <= sphere_c(s, ray),
        0 <= t_min,
    ensures
        sphere_hit_spec(s, ray, t_min, t_max) == None::<HitV>,
{
    let a = sphere_a(ray);
    let hb = sphere_half_b(s, ray);
    let c = sphere_c(s, ray);
    let disc = sphere_disc(s, ray);
    if disc < 0 || a == 0 {
    } else {
        lemma_ls3_nonneg(ray.direction);
        lemma_fxmul_nonneg(a, c);
        lemma_fxmul_nonneg(hb, hb);
        assert(disc <= fxmul(hb, hb));
        lemma_fundamental_div_mod(hb * hb, SCALE as int);
        assert(disc * (SCALE as int) <= hb * hb) by (nonlinear_arith)
            requires
                0 <= disc <= fxmul(hb, hb),
                fxmul(hb, hb) == (hb * hb) / (SCALE as int),
                hb * hb == (SCALE as int) * ((hb * hb) / (SCALE as int)) + (hb * hb) % (
                SCALE as int),
                0 <= (hb * hb) % (SCALE as int),
        ;
        lemma_isqrt_bounds(disc * (SCALE as int));
        let sq = fxsqrt(disc);
        assert(sq <= hb) by (nonlinear_arith)
            requires
                0 <= sq,
                0 <= hb,
                sq * sq <= disc * (SCALE as int),
                disc * (SCALE as int) <= hb * hb,
        ;
        lemma_tdiv_mono((-hb - sq) * (SCALE as int), 0, a);
        lemma_tdiv_mono((-hb + sq) * (SCALE as int), 0, a);
        assert(tdiv(0, a) == 0);
    }
}

/// When the near root of the sphere equation lies in the queried interval
/// and its hit point is within world bounds, the sphere reports a hit whose
/// distance is exactly that root.
pub proof fn lemma_sphere_near_root(s: SphereV, ray: RayV, t_min: int, t_max: int)
    requires
        0 <= sphere_disc(s, ray),
        sphere_a(ray) != 0,
        t_min < sphere_root_near(s, ray) <= t_max,
        bounded3(ray_at(ray, sphere_root_near(s, ray)), COORD_MAX as int),
    ensures
        sphere_hit_spec(s, ray, t_min, t_max) matches Some(h) && h.t == sphere_root_near(s, ray),
{
}

impl Hittable for Sphere {
    open spec fn wf(&self) -> bool {
        &&& bounded3(self@.center, COORD_MAX as int)
        &&& 0 <= self@.radius <= COORD_MAX as int
        &&& color_ok(self@.diffuse)
    }

    open spec fn hit_spec(&self, ray: RayV, t_min: int, t_max: int) -> Option<HitV> {
        sphere_hit_spec(self@, ray, t_min, t_max)
    }

    proof fn lemma_hit_valid(&self, ray: RayV, t_min: int, t_max: int) {
        let s = self@;
        let a = sphere_a(ray);
        let disc = sphere_disc(s, ray);
        if disc < 0 || a == 0 {
        } else {
            let ta = sphere_root_near(s, ray);
            let tb = sphere_root_far(s, ray);
            let t = if t_min < ta && ta <= t_max {
                ta
            } else {
                tb
            };
            if t_min < t && t <= t_max {
                let p = ray_at(ray, t);
                if bounded3(p, COORD_MAX as int) {
                    let w = v3_sub(p, s.center);
                    if 1 <= ls3(w) {
                        lemma_unit3_bounded(w, 536870912);
                    }
                }
            }
        }
    }

    proof fn lemma_hit_restrict(&self, ray: RayV, t_min: int, t_max: int, t2: int) {
        let s = self@;
        let a = sphere_a(ray);
        let disc = sphere_disc(s, ray);
        if disc < 0 || a == 0 {
        } else {
            lemma_ls3_nonneg(ray.direction);
            lemma_isqrt_bounds(disc * (SCALE as int));
            let sq = fxsqrt(disc);
            let hb = sphere_half_b(s, ray);
            let ta = sphere_root_near(s, ray);
            let tb = sphere_root_far(s, ray);
            lemma_tdiv_mono((-hb - sq) * (SCALE as int), (-hb + sq) * (SCALE as int), a);
            assert(ta <= tb);
        }
    }

    fn hit(&self, ray: &Ray, t_min: i128, t_max: i128) -> (r: Option<HitRecord>) {
        let ghost s = self@;
        proof {
            lemma_sphere_coeff_bounds(s, ray@);
        }
        let oc = ray.origin.sub(self.center);
        let a = ray.direction.length_squared();
        let half_b = Vec3::dot(&oc, &ray.direction);
        let c = oc.length_squared() - mul_fx(self.radius, self.radius);
        let disc = mul_fx(half_b, half_b) - mul_fx(a, c);
        if disc < 0 || a == 0 {
            return None;
        }
        proof {
            lemma_isqrt_bounds(disc * (SCALE as int));
        }
        let sqrtd = sqrt_fx(disc);
        let ta = div_fx(-half_b - sqrtd, a);
        let mut t = ta;
        if !(t_min < t && t <= t_max) {
            t = div_fx(-half_b + sqrtd, a);
            if !(t_min < t && t <= t_max) {
                return None;
            }
        }
        let point = ray.at(t);
        if point.x < -COORD_MAX || point.x > COORD_MAX || point.y < -COORD_MAX || point.y
            > COORD_MAX || point.z < -COORD_MAX || point.z > COORD_MAX {
            return None;
        }
        let w = point.sub(self.center);
        let normal = w.unit();
        proof {
            if ls3(w@) < 1 {
                assert(normal@ == w@);
            }
        }
        let front_face = Vec3::dot(&ray.direction, &normal) > 0;
        Some(
            HitRecord {
                p: point,
                material: self.material,
                n: normal,
                t,
                front_face,
            },
        )
    }
}


/// A triangle: three vertices, a precomputed normal (not necessarily unit
/// length) and a diffuse material. Single-sided: only rays meeting the front
/// of the winding, as the normal gives it, are hit.
#[derive(Clone, Copy, Debug)]
pub struct Tri {
    pub p1: Point,
    pub p2: Point,
    pub p3: Point,
    pub normal: Vec3,
    pub material: Material,
}

/// The mathematical model of a triangle.
pub struct TriV {
    pub p1: V3,
    pub p2: V3,
    pub p3: V3,
    pub normal: V3,
    pub diffuse: V3,
}

impl View for Tri {
    type V = TriV;

    open spec fn view(&self) -> TriV {
        TriV {
            p1: self.p1@,
            p2: self.p2@,
            p3: self.p3@,
            normal: self.normal@,
            diffuse: self.material.diffuse@,
        }
    }
}

/// The determinant of the ray/triangle system: positive when the ray meets
/// the front of the triangle, near zero when it runs parallel to its plane.
pub open spec fn tri_det(tr: TriV, ray: RayV) -> int {
    dot3(v3_sub(tr.p2, tr.p1), cross3(ray.direction, v3_sub(tr.p3, tr.p1)))
}

/// The first barycentric coordinate of the intersection.
pub open spec fn tri_u(tr: TriV, ray: RayV) -> int {
    fxdiv(
        dot3(v3_sub(ray.origin, tr.p1), cross3(ray.direction, v3_sub(tr.p3, tr.p1))),
        tri_det(tr, ray),
    )
}

/// The second barycentric coordinate of the intersection.
pub open spec fn tri_v(tr: TriV, ray: RayV) -> int {
    fxdiv(
        dot3(ray.direction, cross3(v3_sub(ray.origin, tr.p1), v3_sub(tr.p2, tr.p1))),
        tri_det(tr, ray),
    )
}

/// The ray parameter of the intersection with the triangle's plane.
pub open spec fn tri_t(tr: TriV, ray: RayV) -> int {
    fxdiv(
        dot3(v3_sub(tr.p3, tr.p1), cross3(v3_sub(ray.origin, tr.p1), v3_sub(tr.p2, tr.p1))),
        tri_det(tr, ray),
    )
}

/// The intersection a triangle reports on `(t_min, t_max]`, by the
/// Moeller-Trumbore test: nothing for a back-facing or near-parallel ray, or
/// when a barycentric coordinate leaves `[0, 1]`; the reported record always
/// carries `front_face` (back faces were already rejected) and the
/// precomputed normal.
pub open spec fn tri_hit_spec(tr: TriV, ray: RayV, t_min: int, t_max: int) -> Option<HitV> {
    let det = tri_det(tr, ray);
    if det < 1 {
        None
    } else {
        let u = tri_u(tr, ray);
        if u < 0 || u > SCALE as int {
            None
        } else {
            let v = tri_v(tr, ray);
            if v < 0 || u + v > SCALE as int {
                None
            } else {
                let t = tri_t(tr, ray);
                if t_min < t && t <= t_max {
                    let p = ray_at(ray, t);
                    if !bounded3(p, COORD_MAX as int) {
                        None
                    } else {
                        Some(
                            HitV {
                                p,
                                n: tr.normal,
                                t,
                                front_face: true,
                                diffuse: tr.diffuse,
                            },
                        )
                    }
                } else {
                    None
                }
            }
        }
    }
}

impl Tri {
    /// A triangle with the given vertices, precomputed normal and diffuse
    /// color.
    pub fn new(p1: Point, p2: Point, p3: Point, normal: Vec3, base_color: Color) -> (r: Tri)
        requires
            bounded3(p1@, COORD_MAX as int),
            bounded3(p2@, COORD_MAX as int),
            bounded3(p3@, COORD_MAX as int),
            bounded3(normal@, COORD_MAX as int),
            color_ok(base_color@),
        ensures
            r@ == (TriV {
                p1: p1@,
                p2: p2@,
                p3: p3@,
                normal: normal@,
                diffuse: base_color@,
            }),
            r.wf(),
    {
        Tri { p1, p2, p3, normal, material: Material { diffuse: base_color } }
    }

    /// Move the triangle by `by`, leaving the normal and material unchanged.
    pub fn translate(&mut self, by: Vec3)
        requires
            old(self).wf(),
            bounded3(v3_add(old(self)@.p1, by@), COORD_MAX as int),
            bounded3(v3_add(old(self)@.p2, by@), COORD_MAX as int),
            bounded3(v3_add(old(self)@.p3, by@), COORD_MAX as int),
        ensures
            final(self)@.p1 == v3_add(old(self)@.p1, by@),
            final(self)@.p2 == v3_add(old(self)@.p2, by@),
            final(self)@.p3 == v3_add(old(self)@.p3, by@),
            final(self)@.normal == old(self)@.normal,
            final(self)@.diffuse == old(self)@.diffuse,
            final(self).wf(),
    {
        self.p1 = self.p1.add(by);
        self.p2 = self.p2.add(by);
        self.p3 = self.p3.add(by);
    }
}

/// Bounds on the Moeller-Trumbore intermediates for a well-formed triangle
/// and ray.
proof fn lemma_tri_coeff_bounds(tr: TriV, ray: RayV)
    requires
        bounded3(tr.p1, COORD_MAX as int),
        bounded3(tr.p2, COORD_MAX as int),
        bounded3(tr.p3, COORD_MAX as int),
        ray_wf(ray),
    ensures
        bounded3(cross3(ray.direction, v3_sub(tr.p3, tr.p1)), 281474976710656),
        bounded3(cross3(v3_sub(ray.origin, tr.p1), v3_sub(tr.p2, tr.p1)), 562949953421312),
        -1000000000000000000000000000 <= tri_det(tr, ray) <= 1000000000000000000000000000,
        -1000000000000000000000000000 <= dot3(
            v3_sub(ray.origin, tr.p1),
            cross3(ray.direction, v3_sub(tr.p3, tr.p1)),
        ) <= 1000000000000000000000000000,
        -1000000000000000000000000000 <= dot3(
            ray.direction,
            cross3(v3_sub(ray.origin, tr.p1), v3_sub(tr.p2, tr.p1)),
        ) <= 1000000000000000000000000000,
        -1000000000000000000000000000 <= dot3(
            v3_sub(tr.p3, tr.p1),
            cross3(v3_sub(ray.origin, tr.p1), v3_sub(tr.p2, tr.p1)),
        ) <= 1000000000000000000000000000,
{
    let v0v1 = v3_sub(tr.p2, tr.p1);
    let v0v2 = v3_sub(tr.p3, tr.p1);
    let tvec = v3_sub(ray.origin, tr.p1);
    let pvec = cross3(ray.direction, v0v2);
    let qvec = cross3(tvec, v0v1);
    lemma_cross3_bound(ray.direction, v0v2, 268435456, 536870912, 281474976710656);
    lemma_cross3_bound(tvec, v0v1, 536870912, 536870912, 562949953421312);
    lemma_dot3_bound(v0v1, pvec, 536870912, 281474976710656);
    lemma_dot3_bound(tvec, pvec, 536870912, 281474976710656);
    lemma_dot3_bound(ray.direction, qvec, 268435456, 562949953421312);
    lemma_dot3_bound(v0v2, qvec, 536870912, 562949953421312);
}

/// A ray running (near) parallel to the triangle's plane, or meeting its
/// back face, is reported as a miss: a determinant below one fixed-point
/// thousandth (the exact test the intersection runs) yields no hit, on any
/// interval.
pub proof fn lemma_tri_parallel_miss(tr: TriV, ray: RayV, t_min: int, t_max: int)
    requires
        tri_det(tr, ray) < 1,
    ensures
        tri_hit_spec(tr, ray, t_min, t_max) == None::<HitV>,
{
}

/// Every hit a triangle reports has barycentric coordinates within the
/// triangle -- each weight in `[0, 1]` and their sum at most `1` (all in
/// fixed-point) -- and its distance is exactly the plane intersection's
/// parameter.
pub proof fn lemma_tri_hit_barycentric(tr: TriV, ray: RayV, t_min: int, t_max: int)
    requires
        tri_hit_spec(tr, ray, t_min, t_max) matches Some(h),
    ensures
        0 <= tri_u(tr, ray) <= SCALE as int,
        0 <= tri_v(tr, ray) <= SCALE as int,
        tri_u(tr, ray) + tri_v(tr, ray) <= SCALE as int,
        tri_hit_spec(tr, ray, t_min, t_max) matches Some(h) ==> h.t == tri_t(tr, ray),
{
}

impl Hittable for Tri {
    open spec fn wf(&self) -> bool {
        &&& bounded3(self@.p1, COORD_MAX as int)
        &&& bounded3(self@.p2, COORD_MAX as int)
        &&& bounded3(self@.p3, COORD_MAX as int)
        &&& bounded3(self@.normal, COORD_MAX as int)
        &&& color_ok(self@.diffuse)
    }

    open spec fn hit_spec(&self, ray: RayV, t_min: int, t_max: int) -> Option<HitV> {
        tri_hit_spec(self@, ray, t_min, t_max)
    }

    proof fn lemma_hit_valid(&self, ray: RayV, t_min: int, t_max: int) {
    }

    proof fn lemma_hit_restrict(&self, ray: RayV, t_min: int, t_max: int, t2: int) {
    }

    fn hit(&self, ray: &Ray, t_min: i128, t_max: i128) -> (r: Option<HitRecord>) {
        proof {
            lemma_tri_coeff_bounds(self@, ray@);
        }
        let v0v1 = self.p2.sub(self.p1);
        let v0v2 = self.p3.sub(self.p1);
        let pvec = Vec3::cross(&ray.direction, &v0v2);
        let det = Vec3::dot(&v0v1, &pvec);
        if det < 1 {
            return None;
        }
        let tvec = ray.origin.sub(self.p1);
        let u = div_fx(Vec3::dot(&tvec, &pvec), det);
        if u < 0 || u > SCALE {
            return None;
        }
        let qvec = Vec3::cross(&tvec, &v0v1);
        let v = div_fx(Vec3::dot(&ray.direction, &qvec), det);
        if v < 0 || u + v > SCALE {
            return None;
        }
        let t = div_fx(Vec3::dot(&v0v2, &qvec), det);
        if t_min < t && t <= t_max {
            let point = ray.at(t);
            if point.x < -COORD_MAX || point.x > COORD_MAX || point.y < -COORD_MAX || point.y
                > COORD_MAX || point.z < -COORD_MAX || point.z > COORD_MAX {
                return None;
            }
            Some(
                HitRecord {
                    p: point,
                    material: self.material,
                    n: self.normal,
                    t,
                    front_face: true,
                },
            )
        } else {
            None
        }
    }
}

} // verus!
