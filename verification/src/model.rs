//! Triangle meshes.
use vstd::prelude::*;

verus! {

use crate::fixed::COORD_MAX;
use vstd::arithmetic::div_mod::lemma_fundamental_div_mod;
use crate::math::{
    Vec3, Point, Ray, RayV, V3, bounded3, v3_sub, v3_add, cross3, unit3, ls3, rgb3,
    lemma_cross3_bound, lemma_unit3_bounded, lemma_ls3_small,
};
use crate::hit::{HitRecord, HitV, Hittable};
use crate::prim::{Tri, TriV};
use crate::scan::{
    all_wf, seq_hit_spec, hit_scan, lemma_seq_hit_valid, lemma_seq_hit_restrict,
};

/// Largest magnitude of a mesh vertex coordinate.
pub const MESH_MAX: i128 = 67108864;

/// A mesh: an ordered collection of triangles sharing one diffuse color.
#[derive(Debug)]
pub struct Model {
    pub tris: Vec<Tri>,
}

/// The vertex that face corner `k` of face `f` names: three consecutive
/// coordinates of `positions`, selected through the index buffer.
pub open spec fn mesh_vertex(indices: Seq<u32>, positions: Seq<i128>, f: int, k: int) -> V3 {
    let base = 3 * (indices[3 * f + k] as int);
    V3 {
        x: positions[base] as int,
        y: positions[base + 1] as int,
        z: positions[base + 2] as int,
    }
}

/// The triangle that face `f` of the mesh describes: its three vertices, the
/// normalized cross product of its edges as the normal, and the mesh's
/// fixed diffuse color.
pub open spec fn mesh_tri(indices: Seq<u32>, positions: Seq<i128>, f: int) -> TriV {
    let v1 = mesh_vertex(indices, positions, f, 0);
    let v2 = mesh_vertex(indices, positions, f, 1);
    let v3 = mesh_vertex(indices, positions, f, 2);
    TriV {
        p1: v1,
        p2: v2,
        p3: v3,
        normal: unit3(cross3(v3_sub(v2, v1), v3_sub(v3, v1))),
        diffuse: rgb3(105, 72, 45),
    }
}

/// Whether an index/position buffer pair describes a well-formed mesh:
/// whole faces only, every index in range, every coordinate within bounds.
pub open spec fn mesh_ok(indices: Seq<u32>, positions: Seq<i128>) -> bool {
    &&& indices.len() % 3 == 0
    &&& forall|i: int|
        0 <= i < indices.len() ==> 3 * ((#[trigger] indices[i]) as int) + 2 < positions.len()
    &&& forall|k: int| 0 <= k < positions.len() ==> -MESH_MAX <= #[trigger] positions[k] <= MESH_MAX
}

impl Model {
    /// Assemble a mesh from an index buffer and a flat coordinate buffer, as
    /// a mesh file's loader hands them over: each group of three indices
    /// names one face, each index names three consecutive coordinates.
    pub fn from_mesh(indices: Vec<u32>, positions: Vec<i128>) -> (r: Model)
        requires
            mesh_ok(indices@, positions@),
        ensures
            r.tris@.len() == indices@.len() / 3,
            forall|f: int| 0 <= f < r.tris@.len() ==> (#[trigger] r.tris@[f])@ == mesh_tri(
                indices@,
                positions@,
                f,
            ),
            r.wf(),
    {
        let num_faces = indices.len() / 3;
        proof {
            lemma_fundamental_div_mod(indices@.len() as int, 3);
        }
        let mut tris: Vec<Tri> = Vec::new();
        let mut f: usize = 0;
        while f < num_faces
            invariant
                f <= num_faces,
                num_faces == indices@.len() / 3,
                mesh_ok(indices@, positions@),
                tris@.len() == f,
                forall|g: int| 0 <= g < f ==> (#[trigger] tris@[g])@ == mesh_tri(
                    indices@,
                    positions@,
                    g,
                ),
                forall|g: int| 0 <= g < f ==> (#[trigger] tris@[g]).wf(),
            decreases num_faces - f,
        {
            let n_idx = indices.len();
            proof {
                lemma_fundamental_div_mod(indices@.len() as int, 3);
                assert(3 * (f as int) + 2 < n_idx as int);
            }
            let v1 = Self::vertex(&indices, &positions, 3 * f);
            let v2 = Self::vertex(&indices, &positions, 3 * f + 1);
            let v3 = Self::vertex(&indices, &positions, 3 * f + 2);
            let edge1 = v2.sub(v1);
            let edge2 = v3.sub(v1);
            let cr = Vec3::cross(&edge1, &edge2);
            proof {
                lemma_cross3_bound(edge1@, edge2@, 134217728, 134217728, 35184372088832);
                if ls3(cr@) < 1 {
                    lemma_ls3_small(cr@);
                } else {
                    lemma_unit3_bounded(cr@, 35184372088832);
                }
            }
            let normal = cr.unit();
            let face = Tri::new(v1, v2, v3, normal, Vec3::rgb(105, 72, 45));
            tris.push(face);
            f = f + 1;
        }
        Model { tris }
    }

    /// One vertex of the mesh: the three coordinates that index `i` of the
    /// index buffer names.
    fn vertex(indices: &Vec<u32>, positions: &Vec<i128>, i: usize) -> (r: Point)
        requires
            mesh_ok(indices@, positions@),
            i < indices@.len(),
        ensures
            r@ == (V3 {
                x: positions@[3 * (indices@[i as int] as int)] as int,
                y: positions@[3 * (indices@[i as int] as int) + 1] as int,
                z: positions@[3 * (indices@[i as int] as int) + 2] as int,
            }),
            bounded3(r@, MESH_MAX as int),
    {
        let plen = positions.len();
        proof {
            assert(3 * ((indices@[i as int]) as int) + 2 < plen as int);
        }
        let base = 3 * (indices[i] as usize);
        Vec3::new(positions[base], positions[base + 1], positions[base + 2])
    }

    /// Move every triangle of the mesh by `by`.
    pub fn translate(&mut self, by: Vec3)
        requires
            old(self).wf(),
            bounded3(by@, COORD_MAX as int),
            forall|g: int| 0 <= g < old(self).tris@.len() ==> {
                let t = (#[trigger] old(self).tris@[g])@;
                &&& bounded3(v3_add(t.p1, by@), COORD_MAX as int)
                &&& bounded3(v3_add(t.p2, by@), COORD_MAX as int)
                &&& bounded3(v3_add(t.p3, by@), COORD_MAX as int)
            },
        ensures
            final(self).tris@.len() == old(self).tris@.len(),
            forall|g: int| 0 <= g < final(self).tris@.len() ==> {
                let t = (#[trigger] final(self).tris@[g])@;
                let t0 = old(self).tris@[g]@;
                &&& t.p1 == v3_add(t0.p1, by@)
                &&& t.p2 == v3_add(t0.p2, by@)
                &&& t.p3 == v3_add(t0.p3, by@)
                &&& t.normal == t0.normal
                &&& t.diffuse == t0.diffuse
            },
            final(self).wf(),
    {
        let n = self.tris.len();
        let mut g: usize = 0;
        while g < n
            invariant
                g <= n,
                n == self.tris@.len(),
                self.tris@.len() == old(self).tris@.len(),
                bounded3(by@, COORD_MAX as int),
                forall|k: int| g <= k < n ==> self.tris@[k] == old(self).tris@[k],
                forall|k: int| g <= k < n ==> (#[trigger] old(self).tris@[k]).wf(),
                forall|k: int| g <= k < n ==> {
                    let t = (#[trigger] old(self).tris@[k])@;
                    &&& bounded3(v3_add(t.p1, by@), COORD_MAX as int)
                    &&& bounded3(v3_add(t.p2, by@), COORD_MAX as int)
                    &&& bounded3(v3_add(t.p3, by@), COORD_MAX as int)
                },
                forall|k: int| 0 <= k < g ==> {
                    let t = (#[trigger] self.tris@[k])@;
                    let t0 = old(self).tris@[k]@;
                    &&& t.p1 == v3_add(t0.p1, by@)
                    &&& t.p2 == v3_add(t0.p2, by@)
                    &&& t.p3 == v3_add(t0.p3, by@)
                    &&& t.normal == t0.normal
                    &&& t.diffuse == t0.diffuse
                },
                forall|k: int| 0 <= k < g ==> (#[trigger] self.tris@[k]).wf(),
            decreases n - g,
        {
            let mut t = self.tris[g];
            t.translate(by);
            self.tris[g] = t;
            g = g + 1;
        }
    }
}

impl Hittable for Model {
    open spec fn wf(&self) -> bool {
        all_wf(self.tris@)
    }

    open spec fn hit_spec(&self, ray: RayV, t_min: int, t_max: int) -> Option<HitV> {
        seq_hit_spec(self.tris@, ray, t_min, t_max)
    }

    proof fn lemma_hit_valid(&self, ray: RayV, t_min: int, t_max: int) {
        lemma_seq_hit_valid(self.tris@, ray, t_min, t_max);
    }

    proof fn lemma_hit_restrict(&self, ray: RayV, t_min: int, t_max: int, t2: int) {
        lemma_seq_hit_restrict(self.tris@, ray, t_min, t_max, t2);
    }

    fn hit(&self, ray: &Ray, t_min: i128, t_max: i128) -> (r: Option<HitRecord>) {
        hit_scan(&self.tris, ray, t_min, t_max)
    }
}

} // verus!
