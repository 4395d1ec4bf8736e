use pathtracer::fixed::{SCALE, T_LIMIT};
use pathtracer::hit::Hittable;
use pathtracer::math::{Ray, Vec3};
use pathtracer::model::Model;
use pathtracer::prim::{Sphere, Tri};
use pathtracer::scene::Prim;

fn toward_neg_z() -> Ray {
    Ray::new(Vec3::origin(), Vec3::new(0, 0, -SCALE))
}

#[test]
fn sphere_hit_toward_center_returns_near_root() {
    // Unit sphere centered three units down the axis: the near intersection
    // is at distance 2, exactly the analytic root of the quadratic.
    let s = Sphere::new(Vec3::new(0, 0, -3 * SCALE), SCALE, Vec3::rgb(200, 10, 10));
    let rec = s.hit(&toward_neg_z(), 0, T_LIMIT).expect("ray toward center must hit");
    assert_eq!(rec.t, 2 * SCALE);
    assert_eq!(rec.p, Vec3::new(0, 0, -2 * SCALE));
    assert_eq!(rec.n, Vec3::new(0, 0, SCALE));
    // the ray runs against the outward normal
    assert!(!rec.front_face);
}

#[test]
fn sphere_miss_returns_none() {
    let s = Sphere::new(Vec3::new(0, 0, -3 * SCALE), SCALE, Vec3::rgb(200, 10, 10));
    // perpendicular direction: the ray's line misses the sphere entirely
    let miss = Ray::new(Vec3::origin(), Vec3::new(SCALE, 0, 0));
    assert!(s.hit(&miss, 0, T_LIMIT).is_none());
    // opposite direction: the line intersects, but only behind the origin
    let behind = Ray::new(Vec3::origin(), Vec3::new(0, 0, SCALE));
    assert!(s.hit(&behind, 0, T_LIMIT).is_none());
}

#[test]
fn sphere_interval_bounds_are_honored() {
    let s = Sphere::new(Vec3::new(0, 0, -3 * SCALE), SCALE, Vec3::rgb(200, 10, 10));
    let r = toward_neg_z();
    // the near root (t = 2) is excluded: the far root (t = 4) is reported
    let far = s.hit(&r, 2 * SCALE, T_LIMIT).expect("far root still in range");
    assert_eq!(far.t, 4 * SCALE);
    // both roots out of range: no hit
    assert!(s.hit(&r, 4 * SCALE, T_LIMIT).is_none());
    assert!(s.hit(&r, 0, SCALE).is_none());
}

fn demo_triangle() -> Tri {
    let p1 = Vec3::new(0, 0, -2 * SCALE);
    let p2 = Vec3::new(2 * SCALE, 0, -2 * SCALE);
    let p3 = Vec3::new(0, 2 * SCALE, -2 * SCALE);
    let e1 = p2.sub(p1);
    let e2 = p3.sub(p1);
    let n = Vec3::cross(&e1, &e2).unit();
    Tri::new(p1, p2, p3, n, Vec3::rgb(10, 200, 10))
}

#[test]
fn triangle_hit_through_centroid() {
    let t = demo_triangle();
    // a ray dropped through (roughly) the centroid, along the negated normal
    let r = Ray::new(Vec3::new(683, 683, 0), Vec3::new(0, 0, -SCALE));
    let rec = t.hit(&r, 0, T_LIMIT).expect("centroid ray must hit");
    assert_eq!(rec.t, 2 * SCALE);
    assert_eq!(rec.p, Vec3::new(683, 683, -2 * SCALE));
    assert_eq!(rec.n, Vec3::new(0, 0, SCALE));
    assert!(rec.front_face);
}

#[test]
fn triangle_miss_parallel_and_outside() {
    let t = demo_triangle();
    // parallel to the triangle's plane
    let parallel = Ray::new(Vec3::origin(), Vec3::new(SCALE, 0, 0));
    assert!(t.hit(&parallel, 0, T_LIMIT).is_none());
    // through the plane but outside the triangle
    let outside = Ray::new(Vec3::new(3 * SCALE, 3 * SCALE, 0), Vec3::new(0, 0, -SCALE));
    assert!(t.hit(&outside, 0, T_LIMIT).is_none());
    // against the winding: single-sided triangles reject back-facing rays
    let behind = Ray::new(Vec3::new(683, 683, -4 * SCALE), Vec3::new(0, 0, SCALE));
    assert!(t.hit(&behind, 0, T_LIMIT).is_none());
}

#[test]
fn aggregate_reports_closest_of_overlapping_spheres() {
    let near_t = SCALE; // sphere of radius 3 centered 4 units away
    let far_t = 2 * SCALE; // unit sphere centered 3 units away
    let s1 = Sphere::new(Vec3::new(0, 0, -3 * SCALE), SCALE, Vec3::rgb(200, 10, 10));
    let s2 = Sphere::new(Vec3::new(0, 0, -4 * SCALE), 3 * SCALE, Vec3::rgb(10, 10, 200));
    let r = toward_neg_z();
    assert_eq!(s1.hit(&r, 0, T_LIMIT).unwrap().t, far_t);
    assert_eq!(s2.hit(&r, 0, T_LIMIT).unwrap().t, near_t);

    let scene: Vec<Prim> = vec![Prim::Sphere(s1), Prim::Sphere(s2)];
    let rec = scene.hit(&r, 0, T_LIMIT).expect("aggregate must hit");
    assert_eq!(rec.t, near_t.min(far_t));
    // the same closest hit regardless of the order of the primitives
    let scene2: Vec<Prim> = vec![Prim::Sphere(s2), Prim::Sphere(s1)];
    assert_eq!(scene2.hit(&r, 0, T_LIMIT).unwrap().t, near_t.min(far_t));
}

#[test]
fn empty_aggregate_never_hits() {
    let scene: Vec<Prim> = vec![];
    assert!(scene.hit(&toward_neg_z(), 0, T_LIMIT).is_none());
}

#[test]
fn mesh_from_buffers_and_hit() {
    let indices: Vec<u32> = vec![0, 1, 2];
    let positions: Vec<i128> = vec![
        0,
        0,
        -2 * SCALE,
        2 * SCALE,
        0,
        -2 * SCALE,
        0,
        2 * SCALE,
        -2 * SCALE,
    ];
    let m = Model::from_mesh(indices, positions);
    assert_eq!(m.tris.len(), 1);
    let r = Ray::new(Vec3::new(683, 683, 0), Vec3::new(0, 0, -SCALE));
    let rec = m.hit(&r, 0, T_LIMIT).expect("mesh face must hit");
    assert_eq!(rec.t, 2 * SCALE);
    assert_eq!(rec.n, Vec3::new(0, 0, SCALE));
    // the mesh's fixed diffuse color
    assert_eq!(rec.material.diffuse, Vec3::new(421, 289, 180));
}

#[test]
fn mesh_translate_moves_every_face() {
    let indices: Vec<u32> = vec![0, 1, 2];
    let positions: Vec<i128> = vec![
        0,
        0,
        -2 * SCALE,
        2 * SCALE,
        0,
        -2 * SCALE,
        0,
        2 * SCALE,
        -2 * SCALE,
    ];
    let mut m = Model::from_mesh(indices, positions);
    m.translate(Vec3::new(0, 0, -SCALE));
    let r = Ray::new(Vec3::new(683, 683, 0), Vec3::new(0, 0, -SCALE));
    let rec = m.hit(&r, 0, T_LIMIT).expect("translated face must hit");
    assert_eq!(rec.t, 3 * SCALE);
    // the normal is untouched by translation
    assert_eq!(rec.n, Vec3::new(0, 0, SCALE));
}

#[test]
fn mesh_inside_scene_aggregate() {
    let indices: Vec<u32> = vec![0, 1, 2];
    let positions: Vec<i128> = vec![
        0,
        0,
        -2 * SCALE,
        2 * SCALE,
        0,
        -2 * SCALE,
        0,
        2 * SCALE,
        -2 * SCALE,
    ];
    let m = Model::from_mesh(indices, positions);
    // a sphere behind the mesh along the same ray: the mesh face wins
    let s = Sphere::new(Vec3::new(0, 0, -6 * SCALE), SCALE, Vec3::rgb(1, 2, 3));
    let scene: Vec<Prim> = vec![Prim::Sphere(s), Prim::Mesh(m)];
    let r = Ray::new(Vec3::new(683, 683, 0), Vec3::new(0, 0, -SCALE));
    assert_eq!(scene.hit(&r, 0, T_LIMIT).unwrap().t, 2 * SCALE);
}
