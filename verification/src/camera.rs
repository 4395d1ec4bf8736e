//! The camera: an eye point, an orthonormal-ish basis and an image plane.
use vstd::prelude::*;

verus! {

use crate::fixed::{
    SCALE, tdiv, fxmul, fxdiv, lemma_tdiv_bound, lemma_tdiv_scale_bound, lemma_tdiv_nonneg,
    lemma_tdiv_lt, lemma_tdiv_div_ge, lemma_fxmul_bound, lemma_fxmul_nonneg, tdiv_i128, mul_fx,
    div_fx,
};
use crate::math::{
    Vec3, Point, Ray, RayV, V3, bounded3, v3_add, v3_sub, v3_scale, v3_div, cross3, unit3,
    lemma_cross3_bound, UNIT_MAX,
};
use crate::hit::ray_wf;

/// Largest magnitude of a camera eye or look-at coordinate.
pub const CAM_MAX: i128 = 67108864;

/// Largest aspect ratio (fixed-point) the camera accepts.
pub const ASPECT_MAX: i128 = 4194304;

/// The tangent of `fov / 2` (both in fixed degrees) never exceeds this cap.
pub const TAN_MAX: i128 = 1048576;

/// Fixed-point radians per fixed-point degree, as a ratio: `x` degrees is
/// `x * PI_FX / DEG_SCALE` radians.
pub const PI_FX: i128 = 3217;

/// The divisor of the degree-to-radian conversion: `180 * SCALE`.
pub const DEG_SCALE: i128 = 184320;

/// A quarter turn in fixed-point radians.
pub const HALF_PI_FX: i128 = 1608;

/// The Taylor approximation of the tangent of `r` fixed-point radians, for
/// `r` up to an eighth of a turn.
pub open spec fn tan_taylor_spec(r: int) -> int {
    let r2 = fxmul(r, r);
    let r3 = fxmul(r2, r);
    let r5 = fxmul(r3, r2);
    let r7 = fxmul(r5, r2);
    r + tdiv(r3, 3) + tdiv(2 * r5, 15) + tdiv(17 * r7, 315)
}

/// The approximate tangent of `x` fixed-point degrees: the Taylor sum below
/// an eighth of a turn, its reciprocal above (capped at `TAN_MAX`).
pub open spec fn tan_deg_spec(x: int) -> int {
    let r = tdiv(x * (PI_FX as int), DEG_SCALE as int);
    if r <= 804 {
        tan_taylor_spec(r)
    } else {
        let c = tan_taylor_spec(HALF_PI_FX as int - r);
        if c < 1 {
            TAN_MAX as int
        } else {
            tdiv((TAN_MAX as int), c)
        }
    }
}

/// The Taylor sum stays within `[0, SCALE]` on its domain.
proof fn lemma_tan_taylor_bounds(r: int)
    requires
        0 <= r <= 804,
    ensures
        0 <= tan_taylor_spec(r) <= SCALE as int,
{
    let r2 = fxmul(r, r);
    let r3 = fxmul(r2, r);
    let r5 = fxmul(r3, r2);
    let r7 = fxmul(r5, r2);
    lemma_fxmul_nonneg(r, r);
    lemma_fxmul_bound(r, r, 804, 804, 632);
    lemma_fxmul_nonneg(r2, r);
    lemma_fxmul_bound(r2, r, 632, 804, 497);
    lemma_fxmul_nonneg(r3, r2);
    lemma_fxmul_bound(r3, r2, 497, 632, 307);
    lemma_fxmul_nonneg(r5, r2);
    lemma_fxmul_bound(r5, r2, 307, 632, 190);
    lemma_tdiv_nonneg(r3, 3);
    lemma_tdiv_scale_bound(r3, 3, 166);
    lemma_tdiv_nonneg(2 * r5, 15);
    lemma_tdiv_scale_bound(2 * r5, 15, 41);
    lemma_tdiv_nonneg(17 * r7, 315);
    lemma_tdiv_scale_bound(17 * r7, 315, 11);
}

/// The Taylor sum of the tangent, on fixed-point radians up to an eighth of
/// a turn.
fn tan_taylor(r: i128) -> (t: i128)
    requires
        0 <= r <= 804,
    ensures
        t == tan_taylor_spec(r as int),
        0 <= t <= SCALE,
{
    proof {
        lemma_tan_taylor_bounds(r as int);
    }
    let r2 = mul_fx(r, r);
    proof {
        lemma_fxmul_nonneg(r as int, r as int);
        lemma_fxmul_bound(r as int, r as int, 804, 804, 632);
    }
    let r3 = mul_fx(r2, r);
    proof {
        lemma_fxmul_nonneg(r2 as int, r as int);
        lemma_fxmul_bound(r2 as int, r as int, 632, 804, 497);
    }
    let r5 = mul_fx(r3, r2);
    proof {
        lemma_fxmul_nonneg(r3 as int, r2 as int);
        lemma_fxmul_bound(r3 as int, r2 as int, 497, 632, 307);
    }
    let r7 = mul_fx(r5, r2);
    proof {
        lemma_fxmul_nonneg(r5 as int, r2 as int);
        lemma_fxmul_bound(r5 as int, r2 as int, 307, 632, 190);
    }
    r + tdiv_i128(r3, 3) + tdiv_i128(2 * r5, 15) + tdiv_i128(17 * r7, 315)
}

/// The approximate tangent of `x` fixed-point degrees, for `x` short of a
/// quarter turn.
pub fn tan_deg(x: i128) -> (t: i128)
    requires
        0 <= x <= 92160,
    ensures
        t == tan_deg_spec(x as int),
        0 <= t <= TAN_MAX,
{
    proof {
        lemma_tdiv_lt(x as int * (PI_FX as int), DEG_SCALE as int, 1609);
    }
    let r = tdiv_i128(x * PI_FX, DEG_SCALE);
    if r <= 804 {
        tan_taylor(r)
    } else {
        let c = tan_taylor(HALF_PI_FX - r);
        if c < 1 {
            TAN_MAX
        } else {
            proof {
                lemma_tdiv_nonneg(TAN_MAX as int, c as int);
                lemma_tdiv_bound(TAN_MAX as int, c as int, TAN_MAX as int);
            }
            tdiv_i128(TAN_MAX, c)
        }
    }
}

/// A camera, built once per render: the eye point, the two image-plane axes
/// and the world-space top-left corner of the plane.
#[derive(Clone, Copy, Debug)]
pub struct Camera {
    pub origin: Point,
    pub horizontal: Vec3,
    pub vertical: Vec3,
    pub top_left_corner: Point,
}

/// The mathematical model of a camera.
pub struct CameraV {
    pub origin: V3,
    pub horizontal: V3,
    pub vertical: V3,
    pub top_left_corner: V3,
}

impl View for Camera {
    type V = CameraV;

    open spec fn view(&self) -> CameraV {
        CameraV {
            origin: self.origin@,
            horizontal: self.horizontal@,
            vertical: self.vertical@,
            top_left_corner: self.top_left_corner@,
        }
    }
}

/// Whether a camera's fields are within the bounds its construction
/// guarantees.
pub open spec fn cam_wf(c: CameraV) -> bool {
    &&& bounded3(c.origin, CAM_MAX as int)
    &&& bounded3(c.horizontal, 6291456)
    &&& bounded3(c.vertical, 37748736)
    &&& bounded3(c.top_left_corner, 89132032)
}

/// The camera that `Camera::new` builds: a basis from the view direction and
/// the world up axis, viewport extents from the field of view and the aspect
/// ratio, and the image plane one unit ahead of the eye.
pub open spec fn camera_spec(position: V3, lookat: V3, aspect_ratio: int, fov: int) -> CameraV {
    let w = unit3(v3_sub(position, lookat));
    let u = unit3(cross3(V3 { x: 0, y: SCALE as int, z: 0 }, w));
    let v = cross3(w, u);
    let viewport_width = 2 * tan_deg_spec(tdiv(fov, 2));
    let horizontal = v3_scale(u, viewport_width);
    let vertical = v3_scale(v, fxdiv(viewport_width, aspect_ratio));
    CameraV {
        origin: position,
        horizontal,
        vertical,
        top_left_corner: v3_sub(
            v3_add(v3_sub(position, v3_div(horizontal, 2 * SCALE as int)), v3_div(vertical, 2 * SCALE as int)),
            w,
        ),
    }
}

/// The ray through normalized image coordinates `(u, v)`: `u` runs left to
/// right and `v` top to bottom, both over `[0, SCALE]`.
pub open spec fn get_ray_spec(c: CameraV, u: int, v: int) -> RayV {
    RayV {
        origin: c.origin,
        direction: v3_sub(
            v3_sub(v3_add(c.top_left_corner, v3_scale(c.horizontal, u)), v3_scale(c.vertical, v)),
            c.origin,
        ),
    }
}

impl Camera {
    /// A camera at `position` looking toward `lookat`, with the given aspect
    /// ratio and vertical field of view, both fixed-point (the field of view
    /// in degrees).
    pub fn new(position: Point, lookat: Point, aspect_ratio: i128, fov: i128) -> (r: Camera)
        requires
            bounded3(position@, CAM_MAX as int),
            bounded3(lookat@, CAM_MAX as int),
            SCALE <= aspect_ratio <= ASPECT_MAX,
            0 < fov < DEG_SCALE,
        ensures
            r@ == camera_spec(position@, lookat@, aspect_ratio as int, fov as int),
            cam_wf(r@),
    {
        let w = position.sub(lookat).unit();
        let up = Vec3::new(0, SCALE, 0);
        let u = Vec3::cross(&up, &w).unit();
        let v = Vec3::cross(&w, &u);
        proof {
            lemma_cross3_bound(up@, w@, SCALE as int, UNIT_MAX as int, 6144);
            lemma_cross3_bound(w@, u@, UNIT_MAX as int, UNIT_MAX as int, 18432);
            lemma_tdiv_nonneg(fov as int, 2);
            lemma_tdiv_scale_bound(fov as int, 2, 92160);
        }
        let half_fov = tdiv_i128(fov, 2);
        let viewport_width = 2 * tan_deg(half_fov);
        proof {
            lemma_fxmul_bound(u@.x, viewport_width as int, UNIT_MAX as int, 2097152, 6291456);
            lemma_fxmul_bound(u@.y, viewport_width as int, UNIT_MAX as int, 2097152, 6291456);
            lemma_fxmul_bound(u@.z, viewport_width as int, UNIT_MAX as int, 2097152, 6291456);
        }
        let horizontal = u.scale(viewport_width);
        proof {
            lemma_tdiv_div_ge(
                viewport_width as int * (SCALE as int),
                aspect_ratio as int,
                SCALE as int,
                2097152,
            );
        }
        let vscale = div_fx(viewport_width, aspect_ratio);
        proof {
            lemma_fxmul_bound(v@.x, vscale as int, 18432, 2097152, 37748736);
            lemma_fxmul_bound(v@.y, vscale as int, 18432, 2097152, 37748736);
            lemma_fxmul_bound(v@.z, vscale as int, 18432, 2097152, 37748736);
        }
        let vertical = v.scale(vscale);
        proof {
            lemma_tdiv_scale_bound(horizontal@.x * (SCALE as int), 2048, 3145728);
            lemma_tdiv_scale_bound(horizontal@.y * (SCALE as int), 2048, 3145728);
            lemma_tdiv_scale_bound(horizontal@.z * (SCALE as int), 2048, 3145728);
            lemma_tdiv_scale_bound(vertical@.x * (SCALE as int), 2048, 18874368);
            lemma_tdiv_scale_bound(vertical@.y * (SCALE as int), 2048, 18874368);
            lemma_tdiv_scale_bound(vertical@.z * (SCALE as int), 2048, 18874368);
        }
        let top_left_corner = position.sub(horizontal.div(2 * SCALE)).add(
            vertical.div(2 * SCALE),
        ).sub(w);
        Camera { origin: position, horizontal, vertical, top_left_corner }
    }

    /// The ray from the eye through normalized image coordinates `(u, v)`:
    /// `u` left to right, `v` top to bottom, nominally over `[0, SCALE]`
    /// (jittered coordinates may spill slightly past the far edge).
    pub fn get_ray(&self, u: i128, v: i128) -> (r: Ray)
        requires
            cam_wf(self@),
            0 <= u <= 2 * SCALE,
            0 <= v <= 2 * SCALE,
        ensures
            r@ == get_ray_spec(self@, u as int, v as int),
            ray_wf(r@),
    {
        proof {
            lemma_fxmul_bound(self@.horizontal.x, u as int, 6291456, 2048, 12582912);
            lemma_fxmul_bound(self@.horizontal.y, u as int, 6291456, 2048, 12582912);
            lemma_fxmul_bound(self@.horizontal.z, u as int, 6291456, 2048, 12582912);
            lemma_fxmul_bound(self@.vertical.x, v as int, 37748736, 2048, 75497472);
            lemma_fxmul_bound(self@.vertical.y, v as int, 37748736, 2048, 75497472);
            lemma_fxmul_bound(self@.vertical.z, v as int, 37748736, 2048, 75497472);
        }
        let direction = self.top_left_corner.add(self.horizontal.scale(u)).sub(
            self.vertical.scale(v),
        ).sub(self.origin);
        Ray { origin: self.origin, direction }
    }
}

} // verus!
