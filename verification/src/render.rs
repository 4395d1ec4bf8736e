//! The tiled renderer: per-pixel sampling, column slices and the framebuffer.
//!
//! Rendering is deterministic: the raster is a function of the scene, the
//! configuration and a seed, pinned down by `render_spec`. The image is
//! partitioned into contiguous column ranges, one per worker, each with its
//! own generator seeded from the base seed, so the slices can be computed in
//! any order (or concurrently by a caller) and assembled into the same
//! raster that the sequential renderer produces.
use vstd::prelude::*;

verus! {

use crate::fixed::{
    SCALE, tdiv, fxsqrt, clamp_spec, lemma_isqrt_bounds, lemma_tdiv_nonneg, lemma_tdiv_scale_bound,
    tdiv_i128, sqrt_fx, clamp,
};
use vstd::arithmetic::div_mod::{
    lemma_fundamental_div_mod, lemma_fundamental_div_mod_converse, lemma_mod_pos_bound,
    lemma_div_pos_is_pos,
};
use crate::math::{Vec3, Point, V3, bounded3, v3_zero, v3_add};
use crate::hit::color_ok;
use crate::camera::{
    Camera, CameraV, camera_spec, get_ray_spec, cam_wf, CAM_MAX, ASPECT_MAX, DEG_SCALE,
};
use crate::rng::{Rng, rng_unit, rng_next};
use crate::scan::all_wf;
use crate::scene::Prim;
use crate::integrator::{cast_ray, cast_ray_spec, lemma_cast_ray_bounded};

/// Camera parameters of a render: eye position, look-at target and vertical
/// field of view in fixed-point degrees.
#[derive(Clone, Copy, Debug)]
pub struct CameraConfig {
    pub pos: Point,
    pub lookat: Point,
    pub fov: i128,
}

/// Parameters of one render call.
#[derive(Clone, Copy, Debug)]
pub struct RenderConfig {
    pub width: u32,
    pub height: u32,
    pub samples: u32,
    pub bounces: u32,
    pub threads: Option<u32>,
    pub camera: CameraConfig,
    /// Whether a caller wants progress reported while rendering; the
    /// renderer itself computes the same raster either way.
    pub progress: bool,
}

/// The bounds a render call asks of its configuration: an image with at
/// least two pixels on a side (the pixel grid spans `width - 1` steps), a
/// positive sample count and worker count, and camera values within world
/// bounds.
pub open spec fn config_wf(c: RenderConfig) -> bool {
    &&& 2 <= c.width <= 4096
    &&& 2 <= c.height <= 4096
    &&& 1 <= c.samples
    &&& c.threads != Some(0u32)
    &&& bounded3(c.camera.pos@, CAM_MAX as int)
    &&& bounded3(c.camera.lookat@, CAM_MAX as int)
    &&& 0 < c.camera.fov < DEG_SCALE
}

/// How many workers a configuration asks for.
pub open spec fn num_threads(c: RenderConfig) -> int {
    match c.threads {
        Some(n) => n as int,
        None => 1,
    }
}

/// How many columns each worker renders: trailing columns of an image whose
/// width the worker count does not divide are dropped, not rendered.
pub open spec fn slice_size(c: RenderConfig) -> int {
    (c.width as int) / num_threads(c)
}

/// The fixed-point aspect ratio of the image, held to the range the camera
/// accepts.
pub open spec fn aspect_of(c: RenderConfig) -> int {
    clamp_spec(tdiv(c.width as int * (SCALE as int), c.height as int), SCALE as int, ASPECT_MAX as int)
}

/// The camera a configuration describes.
pub open spec fn cam_of(c: RenderConfig) -> CameraV {
    camera_spec(c.camera.pos@, c.camera.lookat@, aspect_of(c), c.camera.fov as int)
}

/// The seed of worker `n`, derived from the base seed of the render call.
pub open spec fn worker_seed(seed: u64, n: int) -> u64 {
    seed ^ (((n as u64) << 32u64) | (n as u64))
}

/// The fixed-point aspect ratio of a `width` by `height` image, held to the
/// range the camera accepts.
fn aspect_fx(width: u32, height: u32) -> (a: i128)
    requires
        1 <= height,
        width <= 4096,
    ensures
        a == clamp_spec(
            tdiv(width as int * (SCALE as int), height as int),
            SCALE as int,
            ASPECT_MAX as int,
        ),
{
    let raw = tdiv_i128((width as i128) * SCALE, height as i128);
    clamp(raw, SCALE, ASPECT_MAX)
}

/// The sum of the colors of the next `k` samples of pixel `(i, j)` (row
/// `i`, column `j`), added onto `acc`, with the generator state left behind:
/// each sample jitters the pixel coordinate within its cell, maps it to the
/// image plane and traces one ray.
pub open spec fn sample_px(
    objs: Seq<Prim>,
    cam: CameraV,
    c: RenderConfig,
    i: int,
    j: int,
    state: u64,
    k: nat,
    acc: V3,
) -> (V3, u64)
    decreases k,
{
    if k == 0 {
        (acc, state)
    } else {
        let ju = rng_unit(state);
        let s1 = rng_next(state);
        let jv = rng_unit(s1);
        let s2 = rng_next(s1);
        let u = tdiv(j * (SCALE as int) + ju, c.width as int - 1);
        let v = tdiv(i * (SCALE as int) + jv, c.height as int - 1);
        let ray = get_ray_spec(cam, u, v);
        let (col, s3) = cast_ray_spec(objs, ray, c.bounces as nat, s2);
        sample_px(objs, cam, c, i, j, s3, (k - 1) as nat, v3_add(acc, col))
    }
}

/// The three bytes of pixel `(i, j)`: the sample average, gamma-2 encoded
/// and scaled to `[0, 255]` (truncating), channel by channel.
pub open spec fn pixel_bytes(
    objs: Seq<Prim>,
    cam: CameraV,
    c: RenderConfig,
    i: int,
    j: int,
    state: u64,
) -> (Seq<u8>, u64) {
    let (sum, s2) = sample_px(objs, cam, c, i, j, state, c.samples as nat, v3_zero());
    let bx = tdiv(fxsqrt(tdiv(sum.x, c.samples as int)) * 255, SCALE as int) as u8;
    let by = tdiv(fxsqrt(tdiv(sum.y, c.samples as int)) * 255, SCALE as int) as u8;
    let bz = tdiv(fxsqrt(tdiv(sum.z, c.samples as int)) * 255, SCALE as int) as u8;
    (seq![bx, by, bz], s2)
}

/// A sample sum over a valid accumulator stays within `k` units of energy.
proof fn lemma_sample_px_bounded(
    objs: Seq<Prim>,
    cam: CameraV,
    c: RenderConfig,
    i: int,
    j: int,
    state: u64,
    k: nat,
    acc: V3,
    done: nat,
)
    requires
        all_wf(objs),
        0 <= acc.x <= done * (SCALE as int),
        0 <= acc.y <= done * (SCALE as int),
        0 <= acc.z <= done * (SCALE as int),
    ensures
        ({
            let (sum, s2) = sample_px(objs, cam, c, i, j, state, k, acc);
            &&& 0 <= sum.x <= (done + k) * (SCALE as int)
            &&& 0 <= sum.y <= (done + k) * (SCALE as int)
            &&& 0 <= sum.z <= (done + k) * (SCALE as int)
        }),
    decreases k,
{
    if k == 0 {
    } else {
        let ju = rng_unit(state);
        let s1 = rng_next(state);
        let jv = rng_unit(s1);
        let s2 = rng_next(s1);
        let u = tdiv(j * (SCALE as int) + ju, c.width as int - 1);
        let v = tdiv(i * (SCALE as int) + jv, c.height as int - 1);
        let ray = get_ray_spec(cam, u, v);
        lemma_cast_ray_bounded(objs, ray, c.bounces as nat, s2);
        let (col, s3) = cast_ray_spec(objs, ray, c.bounces as nat, s2);
        assert((done + 1) * (SCALE as int) == done * (SCALE as int) + SCALE as int) by (nonlinear_arith);
        lemma_sample_px_bounded(
            objs,
            cam,
            c,
            i,
            j,
            s3,
            (k - 1) as nat,
            v3_add(acc, col),
            done + 1,
        );
        assert((done + 1 + (k - 1)) == done + k);
    }
}

/// One channel of the quantizer: a sample sum within `samples` units of
/// energy averages into `[0, SCALE]`, whose gamma-2 encoding scales to a
/// byte.
proof fn lemma_quantize_channel(sum: int, samples: int)
    requires
        1 <= samples,
        0 <= sum <= samples * (SCALE as int),
    ensures
        0 <= tdiv(sum, samples) <= SCALE as int,
        0 <= fxsqrt(tdiv(sum, samples)) <= SCALE as int,
        0 <= tdiv(fxsqrt(tdiv(sum, samples)) * 255, SCALE as int) <= 255,
{
    lemma_tdiv_nonneg(sum, samples);
    lemma_tdiv_scale_bound(sum, samples, SCALE as int);
    let avg = tdiv(sum, samples);
    lemma_isqrt_bounds(avg * (SCALE as int));
    let g = fxsqrt(avg);
    assert(g <= SCALE as int) by (nonlinear_arith)
        requires
            0 <= g,
            g * g <= avg * 1024,
            avg <= 1024,
    ;
    lemma_tdiv_nonneg(g * 255, SCALE as int);
    lemma_tdiv_scale_bound(g * 255, SCALE as int, 255);
}

/// Render one pixel: average `samples` jittered rays, gamma-correct and
/// quantize to three bytes.
fn render_pixel(
    objects: &Vec<Prim>,
    camera: &Camera,
    config: RenderConfig,
    i: u32,
    j: u32,
    rng: &mut Rng,
) -> (r: (u8, u8, u8))
    requires
        all_wf(objects@),
        config_wf(config),
        cam_wf(camera@),
        i < config.height,
        j < config.width,
    ensures
        ({
            let (bytes, s2) = pixel_bytes(
                objects@,
                camera@,
                config,
                i as int,
                j as int,
                old(rng).state,
            );
            &&& seq![r.0, r.1, r.2] == bytes
            &&& final(rng).state == s2
        }),
{
    let ghost state0 = rng.state;
    let mut sum = Vec3::origin();
    let mut k: u32 = 0;
    while k < config.samples
        invariant
            k <= config.samples,
            all_wf(objects@),
            config_wf(config),
            cam_wf(camera@),
            i < config.height,
            j < config.width,
            0 <= sum@.x <= k * (SCALE as int),
            0 <= sum@.y <= k * (SCALE as int),
            0 <= sum@.z <= k * (SCALE as int),
            sample_px(
                objects@,
                camera@,
                config,
                i as int,
                j as int,
                rng.state,
                (config.samples - k) as nat,
                sum@,
            ) == sample_px(
                objects@,
                camera@,
                config,
                i as int,
                j as int,
                state0,
                config.samples as nat,
                v3_zero(),
            ),
        decreases config.samples - k,
    {
        let ju = rng.next_fixed();
        let jv = rng.next_fixed();
        proof {
            lemma_tdiv_nonneg(j as int * (SCALE as int) + ju, config.width as int - 1);
            lemma_tdiv_scale_bound(
                j as int * (SCALE as int) + ju,
                config.width as int - 1,
                2 * SCALE as int,
            );
            lemma_tdiv_nonneg(i as int * (SCALE as int) + jv, config.height as int - 1);
            lemma_tdiv_scale_bound(
                i as int * (SCALE as int) + jv,
                config.height as int - 1,
                2 * SCALE as int,
            );
        }
        let u = tdiv_i128((j as i128) * SCALE + ju, (config.width as i128) - 1);
        let v = tdiv_i128((i as i128) * SCALE + jv, (config.height as i128) - 1);
        let ray = camera.get_ray(u, v);
        let col = cast_ray(ray, objects, config.bounces, rng);
        proof {
            assert((k + 1) * (SCALE as int) == k * (SCALE as int) + SCALE as int)
                by (nonlinear_arith);
        }
        sum = sum.add(col);
        k = k + 1;
    }
    proof {
        lemma_sample_px_bounded(
            objects@,
            camera@,
            config,
            i as int,
            j as int,
            state0,
            config.samples as nat,
            v3_zero(),
            0,
        );
        lemma_quantize_channel(sum@.x, config.samples as int);
        lemma_quantize_channel(sum@.y, config.samples as int);
        lemma_quantize_channel(sum@.z, config.samples as int);
    }
    let ax = tdiv_i128(sum.x, config.samples as i128);
    let ay = tdiv_i128(sum.y, config.samples as i128);
    let az = tdiv_i128(sum.z, config.samples as i128);
    let bx = tdiv_i128(sqrt_fx(ax) * 255, SCALE) as u8;
    let by = tdiv_i128(sqrt_fx(ay) * 255, SCALE) as u8;
    let bz = tdiv_i128(sqrt_fx(az) * 255, SCALE) as u8;
    (bx, by, bz)
}


/// The bytes of column `j` from row `i` downward, with the generator state
/// left behind.
pub open spec fn render_col_from(
    objs: Seq<Prim>,
    cam: CameraV,
    c: RenderConfig,
    j: int,
    i: int,
    state: u64,
) -> (Seq<u8>, u64)
    decreases c.height as int - i,
{
    if i < 0 || i >= c.height as int {
        (Seq::empty(), state)
    } else {
        let (pb, s2) = pixel_bytes(objs, cam, c, i, j, state);
        let (rest, s3) = render_col_from(objs, cam, c, j, i + 1, s2);
        (pb + rest, s3)
    }
}

/// The bytes of `cnt` columns starting at column `j`, one full column after
/// another, with the generator state left behind.
pub open spec fn render_cols_from(
    objs: Seq<Prim>,
    cam: CameraV,
    c: RenderConfig,
    j: int,
    cnt: nat,
    state: u64,
) -> (Seq<u8>, u64)
    decreases cnt,
{
    if cnt == 0 {
        (Seq::empty(), state)
    } else {
        let (cb, s2) = render_col_from(objs, cam, c, j, 0, state);
        let (rest, s3) = render_cols_from(objs, cam, c, j + 1, (cnt - 1) as nat, s2);
        (cb + rest, s3)
    }
}

/// The bytes worker `n` produces: its contiguous column range, rendered with
/// a generator seeded from the base seed and the worker index.
pub open spec fn render_slice_spec(objs: Seq<Prim>, c: RenderConfig, n: int, seed: u64) -> (
    Seq<u8>,
    u64,
) {
    render_cols_from(
        objs,
        cam_of(c),
        c,
        n * slice_size(c),
        slice_size(c) as nat,
        worker_seed(seed, n) | 1u64,
    )
}

/// A column renders to three bytes per remaining row.
pub proof fn lemma_render_col_len(
    objs: Seq<Prim>,
    cam: CameraV,
    c: RenderConfig,
    j: int,
    i: int,
    state: u64,
)
    requires
        0 <= i <= c.height as int,
    ensures
        render_col_from(objs, cam, c, j, i, state).0.len() == 3 * (c.height as int - i),
    decreases c.height as int - i,
{
    if i < c.height as int {
        let (pb, s2) = pixel_bytes(objs, cam, c, i, j, state);
        lemma_render_col_len(objs, cam, c, j, i + 1, s2);
    }
}

/// A run of columns renders to three bytes per pixel.
pub proof fn lemma_render_cols_len(
    objs: Seq<Prim>,
    cam: CameraV,
    c: RenderConfig,
    j: int,
    cnt: nat,
    state: u64,
)
    ensures
        render_cols_from(objs, cam, c, j, cnt, state).0.len() == cnt * 3 * (c.height as int),
    decreases cnt,
{
    if cnt == 0 {
        assert(0 * 3 * (c.height as int) == 0) by (nonlinear_arith);
    } else {
        let (cb, s2) = render_col_from(objs, cam, c, j, 0, state);
        lemma_render_col_len(objs, cam, c, j, 0, state);
        lemma_render_cols_len(objs, cam, c, j + 1, (cnt - 1) as nat, s2);
        assert(cnt * 3 * (c.height as int) == 3 * (c.height as int) + (cnt - 1) * 3 * (
        c.height as int)) by (nonlinear_arith);
    }
}

/// The slice boundaries of worker `n` lie within the image.
pub proof fn lemma_slice_bounds(c: RenderConfig, n: int)
    requires
        config_wf(c),
        0 <= n < num_threads(c),
    ensures
        0 <= n * slice_size(c),
        (n + 1) * slice_size(c) <= c.width as int,
        num_threads(c) * slice_size(c) <= c.width as int,
{
    let nt = num_threads(c);
    let sl = slice_size(c);
    lemma_fundamental_div_mod(c.width as int, nt);
    assert(0 <= n * sl && (n + 1) * sl <= nt * sl && nt * sl <= c.width as int)
        by (nonlinear_arith)
        requires
            0 <= n < nt,
            0 <= sl,
            c.width as int == nt * (c.width as int / nt) + (c.width as int) % nt,
            sl == c.width as int / nt,
            0 <= (c.width as int) % nt,
    ;
}

/// Render one full column, top to bottom.
fn render_column(
    objects: &Vec<Prim>,
    camera: &Camera,
    config: RenderConfig,
    j: u32,
    rng: &mut Rng,
) -> (r: Vec<u8>)
    requires
        all_wf(objects@),
        config_wf(config),
        cam_wf(camera@),
        j < config.width,
    ensures
        ({
            let (cb, s2) = render_col_from(
                objects@,
                camera@,
                config,
                j as int,
                0,
                old(rng).state,
            );
            &&& r@ == cb
            &&& final(rng).state == s2
        }),
{
    let ghost state0 = rng.state;
    let mut bytes: Vec<u8> = Vec::new();
    let mut i: u32 = 0;
    while i < config.height
        invariant
            i <= config.height,
            all_wf(objects@),
            config_wf(config),
            cam_wf(camera@),
            j < config.width,
            bytes@ + render_col_from(objects@, camera@, config, j as int, i as int, rng.state).0
                == render_col_from(objects@, camera@, config, j as int, 0, state0).0,
            render_col_from(objects@, camera@, config, j as int, i as int, rng.state).1
                == render_col_from(objects@, camera@, config, j as int, 0, state0).1,
        decreases config.height - i,
    {
        let ghost pre = rng.state;
        let px = render_pixel(objects, camera, config, i, j, rng);
        bytes.push(px.0);
        bytes.push(px.1);
        bytes.push(px.2);
        proof {
            let (pb, s2) = pixel_bytes(objects@, camera@, config, i as int, j as int, pre);
            let (rest, s3) = render_col_from(
                objects@,
                camera@,
                config,
                j as int,
                i as int + 1,
                s2,
            );
            assert(render_col_from(objects@, camera@, config, j as int, i as int, pre).0 == pb
                + rest);
            assert(bytes@ =~= bytes@.subrange(0, bytes@.len() - 3) + pb);
            assert((bytes@.subrange(0, bytes@.len() - 3) + pb) + rest =~= bytes@.subrange(
                0,
                bytes@.len() - 3,
            ) + (pb + rest));
        }
        i = i + 1;
    }
    proof {
        assert(bytes@ + Seq::<u8>::empty() =~= bytes@);
    }
    bytes
}

/// A renderer: a scene, built once, rendered many times.
pub struct Renderer {
    pub objects: Vec<Prim>,
}

impl Renderer {
    /// A renderer over the given primitives.
    pub fn new(objects: Vec<Prim>) -> (r: Renderer)
        ensures
            r.objects == objects,
    {
        Renderer { objects }
    }

    /// Render the columns of worker `n`: `slice_size` full columns starting
    /// at column `n * slice_size`, as one contiguous byte run (three bytes
    /// per pixel, column by column, each column top to bottom). Workers
    /// derive independent generators from the base seed, so callers may
    /// compute slices in any order, or concurrently, and assemble the same
    /// raster.
    pub fn render_slice(&self, config: RenderConfig, n: u32, seed: u64) -> (r: Vec<u8>)
        requires
            all_wf(self.objects@),
            config_wf(config),
            (n as int) < num_threads(config),
        ensures
            r@ == render_slice_spec(self.objects@, config, n as int, seed).0,
            r@.len() == slice_size(config) * 3 * (config.height as int),
    {
        proof {
            lemma_slice_bounds(config, n as int);
            lemma_render_cols_len(
                self.objects@,
                cam_of(config),
                config,
                n as int * slice_size(config),
                slice_size(config) as nat,
                worker_seed(seed, n as int) | 1u64,
            );
        }
        let aspect = aspect_fx(config.width, config.height);
        let camera = Camera::new(config.camera.pos, config.camera.lookat, aspect, config.camera.fov);
        let nt: u32 = match config.threads {
            Some(t) => t,
            None => 1,
        };
        let slice = config.width / nt;
        proof {
            let sl = slice_size(config);
            assert(slice as int * n as int == n as int * sl && n as int * sl + sl == (n as int + 1)
                * sl) by (nonlinear_arith)
                requires
                    slice as int == sl,
            ;
        }
        let start = slice * n;
        let mut rng = Rng::new(seed ^ (((n as u64) << 32) | (n as u64)));
        let ghost state0 = rng.state;
        let mut bytes: Vec<u8> = Vec::new();
        let mut jj: u32 = 0;
        while jj < slice
            invariant
                jj <= slice,
                all_wf(self.objects@),
                config_wf(config),
                cam_wf(camera@),
                camera@ == cam_of(config),
                nt as int == num_threads(config),
                slice as int == slice_size(config),
                start as int == n as int * slice_size(config),
                start + slice <= config.width,
                bytes@ + render_cols_from(
                    self.objects@,
                    camera@,
                    config,
                    start as int + jj as int,
                    (slice - jj) as nat,
                    rng.state,
                ).0 == render_cols_from(
                    self.objects@,
                    camera@,
                    config,
                    start as int,
                    slice as nat,
                    state0,
                ).0,
            decreases slice - jj,
        {
            let ghost pre = rng.state;
            let mut col = render_column(&self.objects, &camera, config, start + jj, &mut rng);
            proof {
                let (cb, s2) = render_col_from(
                    self.objects@,
                    camera@,
                    config,
                    start as int + jj as int,
                    0,
                    pre,
                );
                let (rest, s3) = render_cols_from(
                    self.objects@,
                    camera@,
                    config,
                    start as int + jj as int + 1,
                    (slice - jj - 1) as nat,
                    s2,
                );
                assert(render_cols_from(
                    self.objects@,
                    camera@,
                    config,
                    start as int + jj as int,
                    (slice - jj) as nat,
                    pre,
                ).0 == cb + rest);
                assert((bytes@ + col@) + rest =~= bytes@ + (col@ + rest));
            }
            bytes.append(&mut col);
            jj = jj + 1;
        }
        proof {
            assert(bytes@ + Seq::<u8>::empty() =~= bytes@);
        }
        bytes
    }
}


/// The channel a flat framebuffer index addresses.
pub open spec fn byte_k(idx: int) -> int {
    idx % 3
}

/// The column a flat framebuffer index addresses, in an image `w` wide.
pub open spec fn pix_j(idx: int, w: int) -> int {
    (idx / 3) % w
}

/// The row a flat framebuffer index addresses, in an image `w` wide.
pub open spec fn pix_i(idx: int, w: int) -> int {
    (idx / 3) / w
}

/// Composing a row, column and channel into a flat index and decomposing it
/// again are inverse.
proof fn lemma_idx_compose(i: int, j: int, k: int, w: int, h: int)
    requires
        0 < w,
        0 < h,
        0 <= i < h,
        0 <= j < w,
        0 <= k < 3,
    ensures
        ({
            let idx = (i * w + j) * 3 + k;
            &&& 0 <= idx < w * h * 3
            &&& byte_k(idx) == k
            &&& pix_j(idx, w) == j
            &&& pix_i(idx, w) == i
        }),
{
    let p = i * w + j;
    assert(0 <= p && p < w * h && (p * 3 + k) < w * h * 3) by (nonlinear_arith)
        requires
            0 < w,
            0 < h,
            0 <= i < h,
            0 <= j < w,
            0 <= k < 3,
            p == i * w + j,
    ;
    lemma_fundamental_div_mod_converse(p * 3 + k, 3, p, k);
    lemma_fundamental_div_mod_converse(p, w, i, j);
}

/// A flat index within the framebuffer decomposes into a row, a column and a
/// channel within the image, and recomposes to itself.
proof fn lemma_idx_decompose(idx: int, w: int, h: int)
    requires
        0 < w,
        0 < h,
        0 <= idx < w * h * 3,
    ensures
        0 <= byte_k(idx) < 3,
        0 <= pix_j(idx, w) < w,
        0 <= pix_i(idx, w) < h,
        idx == (pix_i(idx, w) * w + pix_j(idx, w)) * 3 + byte_k(idx),
{
    let p = idx / 3;
    lemma_fundamental_div_mod(idx, 3);
    lemma_mod_pos_bound(idx, 3);
    lemma_div_pos_is_pos(idx, 3);
    assert(p < w * h) by (nonlinear_arith)
        requires
            idx == 3 * p + idx % 3,
            0 <= idx % 3,
            idx < w * h * 3,
            0 <= p,
    ;
    lemma_fundamental_div_mod(p, w);
    lemma_mod_pos_bound(p, w);
    lemma_div_pos_is_pos(p, w);
    assert(p / w < h) by (nonlinear_arith)
        requires
            p == w * (p / w) + p % w,
            0 <= p % w,
            p < w * h,
            0 <= p / w,
            0 < w,
    ;
}

/// A column within worker `n`'s range names worker `n`.
proof fn lemma_column_worker(j: int, n: int, sl: int)
    requires
        0 < sl,
        0 <= n,
        n * sl <= j < (n + 1) * sl,
    ensures
        j / sl == n,
{
    assert(j == n * sl + (j - n * sl) && 0 <= j - n * sl < sl) by (nonlinear_arith)
        requires
            n * sl <= j < (n + 1) * sl,
    ;
    lemma_fundamental_div_mod_converse(j, sl, n, j - n * sl);
}

/// A framebuffer with worker `n`'s slice written over it: indices within the
/// worker's column range take their byte from `bytes`, all others keep their
/// old value.
pub open spec fn blit_spec(fb: Seq<u8>, c: RenderConfig, n: int, bytes: Seq<u8>) -> Seq<u8> {
    blit_upto(fb, c, n, bytes, slice_size(c), 0)
}

/// A framebuffer with worker `n`'s slice written up to (exclusive) column
/// offset `jj`, plus rows before `i` of column offset `jj` itself.
pub open spec fn blit_upto(
    fb: Seq<u8>,
    c: RenderConfig,
    n: int,
    bytes: Seq<u8>,
    jj: int,
    i: int,
) -> Seq<u8> {
    let w = c.width as int;
    let h = c.height as int;
    let sl = slice_size(c);
    let start = n * sl;
    Seq::new(
        fb.len(),
        |idx: int|
            {
                let k = byte_k(idx);
                let j = pix_j(idx, w);
                let ii = pix_i(idx, w);
                if start <= j < start + sl && (j - start < jj || (j - start == jj && ii < i)) {
                    bytes[((j - start) * h + ii) * 3 + k]
                } else {
                    fb[idx]
                }
            },
    )
}

/// Write worker `n`'s slice bytes into the framebuffer, pixel by pixel, at
/// the row-major positions of the worker's columns.
pub fn blit_slice(fb: &mut Vec<u8>, config: RenderConfig, n: u32, bytes: &Vec<u8>)
    requires
        config_wf(config),
        (n as int) < num_threads(config),
        old(fb)@.len() == (config.width as int) * (config.height as int) * 3,
        bytes@.len() == slice_size(config) * 3 * (config.height as int),
    ensures
        final(fb)@ == blit_spec(old(fb)@, config, n as int, bytes@),
{
    let w = config.width;
    let h = config.height;
    let nt: u32 = match config.threads {
        Some(t) => t,
        None => 1,
    };
    let slice = w / nt;
    proof {
        lemma_slice_bounds(config, n as int);
        let sl = slice_size(config);
        assert(slice as int * n as int == n as int * sl && n as int * sl + sl == (n as int + 1)
            * sl) by (nonlinear_arith)
            requires
                slice as int == sl,
        ;
        assert(old(fb)@ =~= blit_upto(old(fb)@, config, n as int, bytes@, 0, 0));
    }
    let start = slice * n;
    let mut jj: u32 = 0;
    while jj < slice
        invariant
            jj <= slice,
            config_wf(config),
            (n as int) < num_threads(config),
            nt as int == num_threads(config),
            slice as int == slice_size(config),
            start as int == n as int * slice_size(config),
            start + slice <= w,
            w == config.width,
            h == config.height,
            fb@.len() == (w as int) * (h as int) * 3,
            bytes@.len() == slice_size(config) * 3 * (h as int),
            fb@ == blit_upto(old(fb)@, config, n as int, bytes@, jj as int, 0),
        decreases slice - jj,
    {
        let mut i: u32 = 0;
        while i < h
            invariant
                i <= h,
                jj < slice,
                config_wf(config),
                (n as int) < num_threads(config),
                nt as int == num_threads(config),
                slice as int == slice_size(config),
                start as int == n as int * slice_size(config),
                start + slice <= w,
                w == config.width,
                h == config.height,
                fb@.len() == (w as int) * (h as int) * 3,
                bytes@.len() == slice_size(config) * 3 * (h as int),
                fb@ == blit_upto(old(fb)@, config, n as int, bytes@, jj as int, i as int),
            decreases h - i,
        {
            let ghost fb_pre = fb@;
            let j = start + jj;
            proof {
                lemma_idx_compose(i as int, j as int, 0, w as int, h as int);
                lemma_idx_compose(i as int, j as int, 1, w as int, h as int);
                lemma_idx_compose(i as int, j as int, 2, w as int, h as int);
                assert(((jj as int) * (h as int) + i as int) * 3 + 2 < bytes@.len())
                    by (nonlinear_arith)
                    requires
                        bytes@.len() == slice_size(config) * 3 * (h as int),
                        0 <= jj as int,
                        (jj as int) < slice_size(config),
                        0 <= i as int,
                        (i as int) < h as int,
                ;
            }
            proof {
                assert((i as int) * (w as int) + (j as int) < 16781312) by (nonlinear_arith)
                    requires
                        (i as int) < 4096,
                        (w as int) <= 4096,
                        0 <= i as int,
                        0 <= j as int,
                        (j as int) < (w as int),
                ;
            }
            let dst = ((i as usize) * (w as usize) + (j as usize)) * 3;
            proof {
                assert((jj as int) * (h as int) + (i as int) < 16781312) by (nonlinear_arith)
                    requires
                        0 <= jj as int,
                        (jj as int) < 4096,
                        (h as int) <= 4096,
                        0 <= i as int,
                        (i as int) < (h as int),
                ;
            }
            let src = ((jj as usize) * (h as usize) + (i as usize)) * 3;
            let b0 = bytes[src];
            let b1 = bytes[src + 1];
            let b2 = bytes[src + 2];
            fb[dst] = b0;
            fb[dst + 1] = b1;
            fb[dst + 2] = b2;
            proof {
                let wi = w as int;
                let hi = h as int;
                let sl = slice_size(config);
                let startI = n as int * sl;
                assert forall|idx: int| 0 <= idx < fb@.len() implies fb@[idx] == blit_upto(
                    old(fb)@,
                    config,
                    n as int,
                    bytes@,
                    jj as int,
                    i as int + 1,
                )[idx] by {
                    lemma_idx_decompose(idx, wi, hi);
                    let k = byte_k(idx);
                    let jx = pix_j(idx, wi);
                    let ix = pix_i(idx, wi);
                    if jx == j as int && ix == i as int {
                        assert(idx == (ix * wi + jx) * 3 + k);
                    } else {
                        assert(fb@[idx] == fb_pre[idx]);
                    }
                }
                assert(fb@ =~= blit_upto(
                    old(fb)@,
                    config,
                    n as int,
                    bytes@,
                    jj as int,
                    i as int + 1,
                ));
            }
            i = i + 1;
        }
        proof {
            assert forall|idx: int| 0 <= idx < fb@.len() implies blit_upto(
                old(fb)@,
                config,
                n as int,
                bytes@,
                jj as int,
                h as int,
            )[idx] == blit_upto(old(fb)@, config, n as int, bytes@, jj as int + 1, 0)[idx] by {
                lemma_idx_decompose(idx, w as int, h as int);
            }
            assert(fb@ =~= blit_upto(old(fb)@, config, n as int, bytes@, jj as int + 1, 0));
        }
        jj = jj + 1;
    }
    proof {
        assert(fb@ =~= blit_upto(old(fb)@, config, n as int, bytes@, slice_size(config), 0));
    }
}


/// The raster after the first `n` workers have written their slices: a
/// byte of a column within those slices comes from its worker's bytes, any
/// other byte is still zero.
pub open spec fn render_upto(objs: Seq<Prim>, c: RenderConfig, seed: u64, n: int) -> Seq<u8> {
    let w = c.width as int;
    let h = c.height as int;
    let sl = slice_size(c);
    Seq::new(
        (w * h * 3) as nat,
        |idx: int|
            {
                let k = byte_k(idx);
                let j = pix_j(idx, w);
                if j < n * sl {
                    let m = j / sl;
                    render_slice_spec(objs, c, m, seed).0[((j - m * sl) * h + pix_i(idx, w)) * 3
                        + k]
                } else {
                    0u8
                }
            },
    )
}

/// The raster a render call produces from a scene, a configuration and a
/// seed: every worker's slice in place, every column past the last slice
/// still zero.
pub open spec fn render_spec(objs: Seq<Prim>, c: RenderConfig, seed: u64) -> Seq<u8> {
    render_upto(objs, c, seed, num_threads(c))
}

/// Rendering is a pure function of the scene, the configuration and the
/// seed: two rasters rendered from the same three are identical.
pub proof fn lemma_render_deterministic(
    objs: Seq<Prim>,
    c: RenderConfig,
    seed: u64,
    r1: Seq<u8>,
    r2: Seq<u8>,
)
    requires
        r1 == render_spec(objs, c, seed),
        r2 == render_spec(objs, c, seed),
    ensures
        r1 == r2,
{
}

/// Columns past the last full slice are never written: when the worker count
/// does not divide the width, every byte of every trailing column keeps its
/// initial zero.
pub proof fn lemma_trailing_columns_unrendered(
    objs: Seq<Prim>,
    c: RenderConfig,
    seed: u64,
    i: int,
    j: int,
    k: int,
)
    requires
        config_wf(c),
        num_threads(c) * slice_size(c) <= j < c.width as int,
        0 <= i < c.height as int,
        0 <= k < 3,
    ensures
        render_spec(objs, c, seed)[(i * (c.width as int) + j) * 3 + k] == 0,
{
    lemma_idx_compose(i, j, k, c.width as int, c.height as int);
}

/// A vector of `len` zero bytes.
fn zero_bytes(len: usize) -> (r: Vec<u8>)
    ensures
        r@ == Seq::new(len as nat, |i: int| 0u8),
{
    let mut out: Vec<u8> = Vec::new();
    let mut k: usize = 0;
    while k < len
        invariant
            k <= len,
            out@ == Seq::new(k as nat, |i: int| 0u8),
        decreases len - k,
    {
        out.push(0);
        proof {
            assert(out@ =~= Seq::new((k + 1) as nat, |i: int| 0u8));
        }
        k = k + 1;
    }
    out
}

impl Renderer {
    /// Render the whole image with the given seed: a row-major RGB8 raster,
    /// one worker slice after another, trailing columns (when the worker
    /// count does not divide the width) left at zero.
    pub fn render_seeded(&self, config: RenderConfig, seed: u64) -> (r: Vec<u8>)
        requires
            all_wf(self.objects@),
            config_wf(config),
        ensures
            r@ == render_spec(self.objects@, config, seed),
            r@.len() == (config.width as int) * (config.height as int) * 3,
    {
        let w = config.width;
        let h = config.height;
        proof {
            assert((w as int) * (h as int) * 3 < 50331649 && 0 <= (w as int) * (h as int) * 3)
                by (nonlinear_arith)
                requires
                    2 <= w as int <= 4096,
                    2 <= h as int <= 4096,
            ;
        }
        let len = (w as usize) * (h as usize) * 3;
        let mut fb = zero_bytes(len);
        let nt: u32 = match config.threads {
            Some(t) => t,
            None => 1,
        };
        proof {
            assert(fb@ =~= render_upto(self.objects@, config, seed, 0));
        }
        let mut nn: u32 = 0;
        while nn < nt
            invariant
                nn <= nt,
                all_wf(self.objects@),
                config_wf(config),
                nt as int == num_threads(config),
                w == config.width,
                h == config.height,
                fb@.len() == (w as int) * (h as int) * 3,
                fb@ == render_upto(self.objects@, config, seed, nn as int),
            decreases nt - nn,
        {
            let ghost fb_pre = fb@;
            let bytes = self.render_slice(config, nn, seed);
            blit_slice(&mut fb, config, nn, &bytes);
            proof {
                let wi = w as int;
                let hi = h as int;
                let sl = slice_size(config);
                lemma_slice_bounds(config, nn as int);
                assert((nn as int + 1) * sl == nn as int * sl + sl) by (nonlinear_arith);
                assert forall|idx: int| 0 <= idx < fb@.len() implies fb@[idx] == render_upto(
                    self.objects@,
                    config,
                    seed,
                    nn as int + 1,
                )[idx] by {
                    lemma_idx_decompose(idx, wi, hi);
                    let j = pix_j(idx, wi);
                    let start = nn as int * sl;
                    if start <= j < start + sl {
                        lemma_column_worker(j, nn as int, sl);
                    }
                }
                assert(fb@ =~= render_upto(self.objects@, config, seed, nn as int + 1));
            }
            nn = nn + 1;
        }
        fb
    }

    /// Render the whole image with a fresh seed drawn from the system's
    /// entropy: some seed's raster, with trailing columns at zero either
    /// way.
    pub fn render(&self, config: RenderConfig) -> (r: Vec<u8>)
        requires
            all_wf(self.objects@),
            config_wf(config),
        ensures
            exists|seed: u64| r@ == render_spec(self.objects@, config, seed),
            r@.len() == (config.width as int) * (config.height as int) * 3,
    {
        let seed = crate::rng::entropy_seed();
        let out = self.render_seeded(config, seed);
        proof {
            assert(out@ == render_spec(self.objects@, config, seed));
        }
        out
    }
}

} // verus!
