use pathtracer::fixed::SCALE;
use pathtracer::math::Vec3;
use pathtracer::prim::Sphere;
use pathtracer::render::{blit_slice, CameraConfig, RenderConfig, Renderer};
use pathtracer::rng::{random_hemisphere_vec, random_unit_vec, random_vec_in_unit_sphere, Rng};
use pathtracer::scene::Prim;

fn sky_only_config(width: u32, height: u32, threads: u32) -> RenderConfig {
    RenderConfig {
        width,
        height,
        samples: 2,
        bounces: 4,
        threads: Some(threads),
        camera: CameraConfig {
            pos: Vec3::new(0, 0, 2 * SCALE),
            lookat: Vec3::origin(),
            fov: 90 * SCALE,
        },
        progress: false,
    }
}

fn pixel(raster: &[u8], width: u32, i: u32, j: u32) -> (u8, u8, u8) {
    let base = ((i * width + j) * 3) as usize;
    (raster[base], raster[base + 1], raster[base + 2])
}

#[test]
fn generator_is_deterministic() {
    let mut a = Rng::new(7);
    let mut b = Rng::new(7);
    for _ in 0..10 {
        assert_eq!(a.next(), b.next());
    }
    let f = a.next_fixed();
    assert!((0..SCALE).contains(&f));
}

#[test]
fn unit_sphere_samples_are_inside_and_normalizable() {
    let mut rng = Rng::new(99);
    for _ in 0..50 {
        let v = random_vec_in_unit_sphere(&mut rng);
        let ls = v.length_squared();
        assert!(ls >= 1 && ls < SCALE, "squared length {ls} out of range");
    }
}

#[test]
fn unit_vec_samples_have_unit_length() {
    let mut rng = Rng::new(5);
    for _ in 0..50 {
        let v = random_unit_vec(&mut rng);
        let ls = v.length_squared();
        // normalization is exact up to fixed-point rounding
        assert!((900..1100).contains(&ls), "squared length {ls} not near one");
    }
}

#[test]
fn hemisphere_samples_face_the_normal() {
    let mut rng = Rng::new(13);
    let n = Vec3::new(0, SCALE, 0);
    for _ in 0..50 {
        let v = random_hemisphere_vec(n, &mut rng);
        assert!(Vec3::dot(&v, &n) >= 0);
    }
}

#[test]
fn box_samples_stay_in_their_box() {
    let mut rng = Rng::new(21);
    for _ in 0..50 {
        let v = Vec3::random(-SCALE, SCALE, &mut rng);
        for c in [v.x, v.y, v.z] {
            assert!((-SCALE..=SCALE).contains(&c));
        }
    }
}

#[test]
fn entropy_seeded_render_produces_a_full_raster() {
    let renderer = Renderer::new(vec![]);
    let cfg = sky_only_config(6, 4, 2);
    let raster = renderer.render(cfg);
    assert_eq!(raster.len(), 6 * 4 * 3);
    // whatever the seed, the sky's blue channel is never zero
    let (_, _, b) = pixel(&raster, 6, 0, 0);
    assert!(b > 0);
}

#[test]
fn rendering_same_seed_twice_is_identical() {
    let scene: Vec<Prim> = vec![Prim::Sphere(Sphere::new(
        Vec3::new(0, 0, -4 * SCALE),
        SCALE,
        Vec3::rgb(128, 128, 128),
    ))];
    let renderer = Renderer::new(scene);
    let cfg = sky_only_config(8, 6, 2);
    let a = renderer.render_seeded(cfg, 123456789);
    let b = renderer.render_seeded(cfg, 123456789);
    assert_eq!(a, b);
}

#[test]
fn trailing_columns_stay_black() {
    // width 10 over 3 workers: slice_size 3, so columns 0..9 are rendered
    // and column 9 is never written.
    let renderer = Renderer::new(vec![]);
    let cfg = sky_only_config(10, 8, 3);
    let raster = renderer.render_seeded(cfg, 42);
    assert_eq!(raster.len(), 10 * 8 * 3);
    for i in 0..8u32 {
        let (r, g, b) = pixel(&raster, 10, i, 9);
        assert_eq!((r, g, b), (0, 0, 0), "column 9 must stay at its initial value");
    }
    // every covered column shows the sky, whose blue channel is never zero
    for j in 0..9u32 {
        for i in 0..8u32 {
            let (_, _, b) = pixel(&raster, 10, i, j);
            assert!(b > 0, "column {j} should have been rendered");
        }
    }
}

#[test]
fn slices_assemble_into_the_sequential_raster() {
    let scene: Vec<Prim> = vec![Prim::Sphere(Sphere::new(
        Vec3::new(0, -101 * SCALE, 0),
        100 * SCALE,
        Vec3::rgb(128, 128, 128),
    ))];
    let renderer = Renderer::new(scene);
    let cfg = sky_only_config(9, 6, 3);
    let seed = 77;
    let whole = renderer.render_seeded(cfg, seed);
    let mut assembled = vec![0u8; whole.len()];
    for n in 0..3u32 {
        let bytes = renderer.render_slice(cfg, n, seed);
        blit_slice(&mut assembled, cfg, n, &bytes);
    }
    assert_eq!(assembled, whole);
}

#[test]
fn lower_half_sphere_scene_shades_as_expected() {
    // A single large sphere below the camera: the top of the frame shows the
    // sky gradient (red below green below blue), the bottom shows the
    // darkened diffuse bounce.
    let scene: Vec<Prim> = vec![Prim::Sphere(Sphere::new(
        Vec3::new(0, -101 * SCALE, 0),
        100 * SCALE,
        Vec3::rgb(128, 128, 128),
    ))];
    let renderer = Renderer::new(scene);
    let mut cfg = sky_only_config(16, 16, 1);
    cfg.samples = 8;
    let raster = renderer.render_seeded(cfg, 2024);
    let (tr, tg, tb) = pixel(&raster, 16, 0, 8);
    assert!(tr < tg && tg < tb, "top row must shade toward blue sky: {tr} {tg} {tb}");
    let (br, bg, bb) = pixel(&raster, 16, 15, 8);
    let top_sum = tr as u32 + tg as u32 + tb as u32;
    let bottom_sum = br as u32 + bg as u32 + bb as u32;
    assert!(
        bottom_sum < top_sum,
        "diffuse floor must be darker than the sky: {bottom_sum} vs {top_sum}"
    );
}

#[test]
fn sampling_converges_toward_a_stable_average() {
    let scene: Vec<Prim> = vec![Prim::Sphere(Sphere::new(
        Vec3::new(0, -101 * SCALE, 0),
        100 * SCALE,
        Vec3::rgb(128, 128, 128),
    ))];
    let renderer = Renderer::new(scene);
    let mut cfg = sky_only_config(8, 8, 1);

    let mean = |raster: &[u8]| -> u32 {
        let sum: u32 = raster.iter().map(|&b| b as u32).sum();
        sum / raster.len() as u32
    };
    cfg.samples = 40;
    let a = mean(&renderer.render_seeded(cfg, 7));
    cfg.samples = 80;
    let b = mean(&renderer.render_seeded(cfg, 7));
    let diff = a.abs_diff(b);
    assert!(diff <= 12, "means {a} and {b} should be close");
}
