use vstd::prelude::*;
use crate::geometry::Vec3;
use crate::model::Object;
use crate::shaders::POS_ONE;
use crate::texture::UV_ONE;

verus! {

pub open spec fn v3(x: int, y: int, z: int) -> Vec3 {
    Vec3 { x: x as i64, y: y as i64, z: z as i64 }
}

/// The square from `(-1, -1)` to `(1, 1)` in the plane `z = 0` (coordinates in
/// units of `1 / POS_ONE`), as two triangles facing `+z`, with texture
/// coordinates running from `(0, 0)` to `(1, 1)` across it.
pub struct Plane;

impl Plane {
    pub fn new() -> (r: Object)
        ensures
            r.wf(),
            r.faces() == 2,
            r.vert_spec(0, 0) == v3(-0x1_0000, 0x1_0000, 0),
            r.vert_spec(0, 1) == v3(-0x1_0000, -0x1_0000, 0),
            r.vert_spec(0, 2) == v3(0x1_0000, 0x1_0000, 0),
            r.vert_spec(1, 0) == v3(0x1_0000, 0x1_0000, 0),
            r.vert_spec(1, 1) == v3(-0x1_0000, -0x1_0000, 0),
            r.vert_spec(1, 2) == v3(0x1_0000, -0x1_0000, 0),
            r.texture_coord_spec(0, 0) == v3(0, 0x1_0000, 0),
            r.texture_coord_spec(0, 1) == v3(0, 0, 0),
            r.texture_coord_spec(0, 2) == v3(0x1_0000, 0x1_0000, 0),
            r.texture_coord_spec(1, 0) == v3(0x1_0000, 0x1_0000, 0),
            r.texture_coord_spec(1, 1) == v3(0, 0, 0),
            r.texture_coord_spec(1, 2) == v3(0x1_0000, 0, 0),
            forall|f: int, k: int| 0 <= f < 2 && 0 <= k < 3 ==> #[trigger] r.normal_spec(f, k) == v3(0, 0, 0x1_0000),
    {
        let one = POS_ONE;
        let neg = -one;
        let verts = vec![
            Vec3 { x: neg, y: one, z: 0 },
            Vec3 { x: neg, y: neg, z: 0 },
            Vec3 { x: one, y: one, z: 0 },
            Vec3 { x: one, y: neg, z: 0 },
        ];
        let uvs = vec![
            Vec3 { x: 0, y: UV_ONE, z: 0 },
            Vec3 { x: 0, y: 0, z: 0 },
            Vec3 { x: UV_ONE, y: UV_ONE, z: 0 },
            Vec3 { x: UV_ONE, y: 0, z: 0 },
        ];
        let normals = vec![Vec3 { x: 0, y: 0, z: one }];
        let faces = vec![[0usize, 1, 2], [2usize, 1, 3]];
        let uv_faces = vec![[0usize, 1, 2], [2usize, 1, 3]];
        let normal_faces = vec![[0usize, 0, 0], [0usize, 0, 0]];
        let m = Object {
            verts,
            texture_coords: uvs,
            vert_normals: normals,
            face_vert_idx: faces,
            face_texture_idx: uv_faces,
            vert_normal_idx: normal_faces,
        };
        proof {
            assert(m.face_vert_idx@[1][0] == 2 && m.face_vert_idx@[1][2] == 3);
        }
        m
    }
}

} // verus!
