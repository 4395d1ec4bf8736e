//! The light-transport integrator: recursive diffuse bouncing under a sky.
use vstd::prelude::*;

verus! {

use crate::fixed::{
    SCALE, T_LIMIT, tdiv, clamp_spec, lemma_fxmul_bound, lemma_fxmul_nonneg, tdiv_i128, clamp,
};
use crate::math::{
    Vec3, Color, Ray, RayV, V3, v3_zero, v3_add, v3_mul, v3_scale, ls3, unit3, lemma_ls3_small,
};
use crate::hit::{color_ok, ray_wf, Hittable};
use crate::rng::{Rng, hemi_sample, SAMPLE_TRIES};
use crate::scan::{all_wf, seq_hit_spec};
use crate::scene::Prim;

/// The ray parameter below which a hit is ignored: one fixed-point unit, so
/// that a bounced ray cannot re-intersect the surface it starts on.
pub const T_EPS: i128 = 1;

/// The sky a ray escapes to: a vertical gradient from white at the horizon
/// to blue overhead, keyed on the normalized direction's height (a direction
/// too short to normalize is read as it stands, and the mix parameter is
/// clamped so the gradient is total).
pub open spec fn sky_color(d: V3) -> V3 {
    let yy = if ls3(d) < 1 {
        d.y
    } else {
        unit3(d).y
    };
    let t = clamp_spec(tdiv(yy + SCALE as int, 2), 0, SCALE as int);
    v3_add(
        v3_scale(V3 { x: SCALE as int, y: SCALE as int, z: SCALE as int }, SCALE as int - t),
        v3_scale(V3 { x: 512, y: 716, z: SCALE as int }, t),
    )
}

/// The sky is a valid color.
pub proof fn lemma_sky_color_ok(d: V3)
    ensures
        color_ok(sky_color(d)),
{
    let yy = if ls3(d) < 1 {
        d.y
    } else {
        unit3(d).y
    };
    let t = clamp_spec(tdiv(yy + SCALE as int, 2), 0, SCALE as int);
    let s = SCALE as int;
    lemma_fxmul_nonneg(s, s - t);
    lemma_fxmul_bound(s, s - t, s, s - t, s - t);
    lemma_fxmul_nonneg(512, t);
    lemma_fxmul_bound(512, t, s, t, t);
    lemma_fxmul_nonneg(716, t);
    lemma_fxmul_bound(716, t, s, t, t);
    lemma_fxmul_nonneg(s, t);
    lemma_fxmul_bound(s, t, s, t, t);
}

/// The component-wise product of two valid colors is a valid color.
pub proof fn lemma_color_ok_mul(a: V3, b: V3)
    requires
        color_ok(a),
        color_ok(b),
    ensures
        color_ok(v3_mul(a, b)),
{
    lemma_fxmul_nonneg(a.x, b.x);
    lemma_fxmul_nonneg(a.y, b.y);
    lemma_fxmul_nonneg(a.z, b.z);
    lemma_fxmul_bound(a.x, b.x, SCALE as int, SCALE as int, SCALE as int);
    lemma_fxmul_bound(a.y, b.y, SCALE as int, SCALE as int, SCALE as int);
    lemma_fxmul_bound(a.z, b.z, SCALE as int, SCALE as int, SCALE as int);
}

/// The color that tracing a ray returns, with the generator state it leaves
/// behind: black once the bounce budget is spent; on a hit, the recursive
/// color attenuated by the surface's reflectance; the sky otherwise.
pub open spec fn cast_ray_spec(objs: Seq<Prim>, r: RayV, bounces: nat, state: u64) -> (V3, u64)
    decreases bounces,
{
    if bounces == 0 {
        (v3_zero(), state)
    } else {
        match seq_hit_spec(objs, r, T_EPS as int, T_LIMIT as int) {
            Some(h) => {
                let (dir, s2) = hemi_sample(state, h.n, SAMPLE_TRIES as nat);
                let (c, s3) = cast_ray_spec(
                    objs,
                    RayV { origin: h.p, direction: dir },
                    (bounces - 1) as nat,
                    s2,
                );
                (v3_mul(h.diffuse, c), s3)
            },
            None => (sky_color(r.direction), state),
        }
    }
}

/// Every color the integrator returns is a valid color: tracing never
/// amplifies energy beyond the sky's.
pub proof fn lemma_cast_ray_bounded(objs: Seq<Prim>, r: RayV, bounces: nat, state: u64)
    requires
        all_wf(objs),
    ensures
        color_ok(cast_ray_spec(objs, r, bounces, state).0),
    decreases bounces,
{
    if bounces == 0 {
    } else {
        match seq_hit_spec(objs, r, T_EPS as int, T_LIMIT as int) {
            Some(h) => {
                crate::scan::lemma_seq_hit_valid(objs, r, T_EPS as int, T_LIMIT as int);
                let (dir, s2) = hemi_sample(state, h.n, SAMPLE_TRIES as nat);
                lemma_cast_ray_bounded(
                    objs,
                    RayV { origin: h.p, direction: dir },
                    (bounces - 1) as nat,
                    s2,
                );
                let (c, s3) = cast_ray_spec(
                    objs,
                    RayV { origin: h.p, direction: dir },
                    (bounces - 1) as nat,
                    s2,
                );
                lemma_color_ok_mul(h.diffuse, c);
            },
            None => {
                lemma_sky_color_ok(r.direction);
            },
        }
    }
}

/// Trace a ray through the scene: recurse over diffuse bounces until the
/// budget runs out or the ray escapes to the sky.
pub fn cast_ray(r: Ray, objects: &Vec<Prim>, bounces: u32, rng: &mut Rng) -> (c: Color)
    requires
        all_wf(objects@),
        ray_wf(r@),
    ensures
        (c@, final(rng).state) == cast_ray_spec(
            objects@,
            r@,
            bounces as nat,
            old(rng).state,
        ),
        color_ok(c@),
    decreases bounces,
{
    proof {
        lemma_cast_ray_bounded(objects@, r@, bounces as nat, old(rng).state);
    }
    if bounces == 0 {
        return Vec3::origin();
    }
    let hit = objects.hit(&r, T_EPS, T_LIMIT);
    match hit {
        Some(record) => {
            proof {
                objects.lemma_hit_valid(r@, T_EPS as int, T_LIMIT as int);
            }
            let target = crate::rng::random_hemisphere_vec(record.n, rng);
            let bounced = cast_ray(Ray::new(record.p, target), objects, bounces - 1, rng);
            record.material.diffuse.mul(bounced)
        },
        None => {
            proof {
                if ls3(r@.direction) < 1 {
                    lemma_ls3_small(r@.direction);
                }
            }
            let ls = r.direction.length_squared();
            let yy = if ls < 1 {
                r.direction.y
            } else {
                r.direction.unit().y
            };
            let t = clamp(tdiv_i128(yy + SCALE, 2), 0, SCALE);
            proof {
                lemma_sky_color_ok(r@.direction);
            }
            Vec3::new(SCALE, SCALE, SCALE).scale(SCALE - t).add(
                Vec3::new(512, 716, SCALE).scale(t),
            )
        },
    }
}

} // verus!
