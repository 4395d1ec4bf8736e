//! Pseudo-random sampling for the integrator.
//!
//! The renderer draws all of its randomness from a small xorshift generator
//! whose every step is pinned down by a spec function, so a render is a pure
//! function of the scene, the configuration and the seed. Fresh entropy for a
//! seed comes from the `rand` crate through one trusted wrapper.
use vstd::prelude::*;

verus! {

use crate::fixed::{SCALE, T_LIMIT, fxmul, tdiv, lemma_tdiv_scale_bound, mul_fx};
use crate::math::{
    Vec3, V3, bounded3, ls3, unit3, dot3, v3_neg, UNIT_MAX, DOT_IN_MAX, lemma_ls3_bounds,
};
use vstd::arithmetic::div_mod::lemma_div_pos_is_pos;

/// Relies on rand::random: a sample of the `u64` standard distribution.
/// Nothing is assumed of the value; it only seeds the deterministic generator.
#[verifier::external_body]
pub fn entropy_seed() -> u64 {
    rand::random::<u64>()
}

/// One xorshift step of the generator state.
pub open spec fn rng_next(s: u64) -> u64 {
    let a = s ^ (s << 13u64);
    let b = a ^ (a >> 7u64);
    b ^ (b << 17u64)
}

/// Three xorshift steps, as one vector draw consumes.
pub open spec fn rng_next3(s: u64) -> u64 {
    rng_next(rng_next(rng_next(s)))
}

/// The fixed-point scalar in `[0, SCALE)` drawn by one step from state `s`.
pub open spec fn rng_unit(s: u64) -> int {
    (rng_next(s) >> 54u64) as int
}

/// A deterministic xorshift pseudo-random generator.
#[derive(Clone, Copy, Debug)]
pub struct Rng {
    pub state: u64,
}

impl Rng {
    /// A generator seeded with `seed`; the low bit is forced so that the
    /// state is never the all-zero fixed point of xorshift.
    pub fn new(seed: u64) -> (r: Rng)
        ensures
            r.state == seed | 1u64,
    {
        Rng { state: seed | 1 }
    }

    /// The next raw state.
    pub fn next(&mut self) -> (r: u64)
        ensures
            final(self).state == rng_next(old(self).state),
            r == final(self).state,
    {
        let s0 = self.state;
        let a = s0 ^ (s0 << 13);
        let b = a ^ (a >> 7);
        let c = b ^ (b << 17);
        self.state = c;
        c
    }

    /// A fixed-point scalar uniform over `[0, SCALE)`.
    pub fn next_fixed(&mut self) -> (r: i128)
        ensures
            final(self).state == rng_next(old(self).state),
            r == rng_unit(old(self).state),
            0 <= r < SCALE,
    {
        let s = self.next();
        let top = s >> 54;
        proof {
            assert(s >> 54u64 < 1024u64) by (bit_vector);
        }
        top as i128
    }
}

/// The scalar in `[min, max]` drawn by one step from state `s`.
pub open spec fn rand_range(s: u64, min: int, max: int) -> int {
    min + fxmul(rng_unit(s), max - min)
}

/// The vector drawn by three steps from state `s`, each component uniform
/// over `[min, max]`.
pub open spec fn v3_random(s: u64, min: int, max: int) -> V3 {
    V3 {
        x: rand_range(s, min, max),
        y: rand_range(rng_next(s), min, max),
        z: rand_range(rng_next(rng_next(s)), min, max),
    }
}

/// A drawn scalar stays inside `[min, max]`.
proof fn lemma_rand_range_bounds(s: u64, min: int, max: int)
    requires
        min <= max,
    ensures
        min <= rand_range(s, min, max) <= max,
{
    let u = rng_unit(s);
    assert(0 <= u < 1024) by {
        assert(rng_next(s) >> 54u64 < 1024u64) by (bit_vector);
    }
    let d = max - min;
    assert(0 <= u * d <= 1024 * d) by (nonlinear_arith)
        requires
            0 <= u < 1024,
            0 <= d,
    ;
    lemma_tdiv_scale_bound(u * d, SCALE as int, d);
    if u * d > 0 {
        lemma_div_pos_is_pos(u * d, SCALE as int);
    }
}

impl Vec3 {
    /// A vector with each component drawn uniformly from `[min, max]`.
    pub fn random(min: i128, max: i128, rng: &mut Rng) -> (r: Vec3)
        requires
            -T_LIMIT <= min <= max <= T_LIMIT,
        ensures
            r@ == v3_random(old(rng).state, min as int, max as int),
            final(rng).state == rng_next3(old(rng).state),
            bounded3(r@, T_LIMIT as int),
            min <= r@.x <= max && min <= r@.y <= max && min <= r@.z <= max,
    {
        proof {
            lemma_rand_range_bounds(old(rng).state, min as int, max as int);
            lemma_rand_range_bounds(rng_next(old(rng).state), min as int, max as int);
            lemma_rand_range_bounds(rng_next(rng_next(old(rng).state)), min as int, max as int);
        }
        let d = max - min;
        let ux = rng.next_fixed();
        let uy = rng.next_fixed();
        let uz = rng.next_fixed();
        Vec3 { x: min + mul_fx(ux, d), y: min + mul_fx(uy, d), z: min + mul_fx(uz, d) }
    }
}

/// How many rejection-sampling draws are attempted before falling back to a
/// fixed in-sphere vector, so that sampling is total.
pub const SAMPLE_TRIES: u32 = 64;

/// The in-sphere vector reached from state `s` with `tries` draws left:
/// the first draw from the box `[-SCALE, SCALE]^3` that lands inside the unit
/// sphere (and is long enough to normalize), or a fixed short vector when
/// every draw missed.
pub open spec fn sphere_sample(s: u64, tries: nat) -> (V3, u64)
    decreases tries,
{
    if tries == 0 {
        (V3 { x: 0, y: 0, z: (SCALE as int) / 2 }, s)
    } else {
        let v = v3_random(s, -(SCALE as int), SCALE as int);
        let s3 = rng_next3(s);
        if 1 <= ls3(v) < SCALE as int {
            (v, s3)
        } else {
            sphere_sample(s3, (tries - 1) as nat)
        }
    }
}

/// A vector drawn uniformly from the unit sphere by rejection sampling.
/// Draws shorter than one fixed-point unit are also rejected, so the result
/// can always be normalized.
pub fn random_vec_in_unit_sphere(rng: &mut Rng) -> (r: Vec3)
    ensures
        (r@, final(rng).state) == sphere_sample(old(rng).state, SAMPLE_TRIES as nat),
        bounded3(r@, SCALE as int),
        1 <= ls3(r@) < SCALE as int,
{
    let mut k: u32 = 0;
    while k < SAMPLE_TRIES
        invariant
            k <= SAMPLE_TRIES,
            sphere_sample(rng.state, (SAMPLE_TRIES - k) as nat) == sphere_sample(
                old(rng).state,
                SAMPLE_TRIES as nat,
            ),
        decreases SAMPLE_TRIES - k,
    {
        let v = Vec3::random(-SCALE, SCALE, rng);
        proof {
            lemma_ls3_bounds(v@, SCALE as int);
        }
        let ls = v.length_squared();
        if 1 <= ls && ls < SCALE {
            return v;
        }
        k = k + 1;
    }
    let r = Vec3 { x: 0, y: 0, z: 512 };
    proof {
        assert(ls3(r@) == tdiv(512int * 512, 1024));
    }
    r
}

/// The unit vector reached from state `s` with `tries` draws left.
pub open spec fn unit_sample(s: u64, tries: nat) -> (V3, u64) {
    let (v, s2) = sphere_sample(s, tries);
    (unit3(v), s2)
}

/// A unit vector drawn uniformly by normalizing an in-sphere draw.
pub fn random_unit_vec(rng: &mut Rng) -> (r: Vec3)
    ensures
        (r@, final(rng).state) == unit_sample(old(rng).state, SAMPLE_TRIES as nat),
        bounded3(r@, UNIT_MAX as int),
{
    let v = random_vec_in_unit_sphere(rng);
    v.unit()
}

/// The hemisphere direction reached from state `s`: a unit draw, flipped to
/// the side of the normal `n`.
pub open spec fn hemi_sample(s: u64, n: V3, tries: nat) -> (V3, u64) {
    let (v, s2) = unit_sample(s, tries);
    if dot3(v, n) > 0 {
        (v, s2)
    } else {
        (v3_neg(v), s2)
    }
}

/// A direction drawn uniformly over the hemisphere around the normal `n`.
pub fn random_hemisphere_vec(n: Vec3, rng: &mut Rng) -> (r: Vec3)
    requires
        bounded3(n@, DOT_IN_MAX as int),
    ensures
        (r@, final(rng).state) == hemi_sample(old(rng).state, n@, SAMPLE_TRIES as nat),
        bounded3(r@, UNIT_MAX as int),
{
    let v = random_unit_vec(rng);
    if Vec3::dot(&v, &n) > 0 {
        v
    } else {
        v.neg()
    }
}

} // verus!
