use vstd::prelude::*;
use crate::geometry::{Vec3, Vec4};
use crate::mat::{mat_ok, point_ok, transform_point, transform_spec, Mat4, MAT_LIMIT};
use crate::image::Rgb;
use crate::model::Model;
use crate::pipeline::{Fragment, FragmentInfo, Shader};
use crate::raster::{abs, interpolate_spec, ATTR_LIMIT};
use crate::texture::{filter_spec, Texture};

verus! {

/// The unit of model coordinates: under the identity matrix a model coordinate of
/// `POS_ONE` is 1 in normalized-device coordinates.
pub const POS_ONE: i64 = 0x1_0000;

/// Clip-space position of model point `p` under `mvp`; a point out of the range a
/// matrix takes gets `w == 0`, which puts its triangle off the screen.
pub open spec fn clip_of(mvp: Mat4, p: Vec3) -> Vec4 {
    if point_ok(p) { transform_spec(mvp, p) } else { Vec4 { x: 0, y: 0, z: 0, w: 0 } }
}

fn clip_exec(mvp: &Mat4, p: Vec3) -> (r: Vec4)
    requires
        mat_ok(*mvp),
    ensures
        r == clip_of(*mvp, p),
{
    let l = MAT_LIMIT;
    if -l <= p.x && p.x <= l && -l <= p.y && p.y <= l && -l <= p.z && p.z <= l {
        transform_point(mvp, p)
    } else {
        Vec4 { x: 0, y: 0, z: 0, w: 0 }
    }
}

/// Draws every face in one color, model points transformed to clip space by
/// `mvp`.
#[derive(Clone, Copy, Debug)]
pub struct FlatShader {
    pub color: Rgb,
    pub mvp: Mat4,
}

impl FlatShader {
    /// A shader that takes model coordinates as normalized-device coordinates.
    pub fn new(color: Rgb) -> (r: FlatShader)
        ensures
            r.color == color,
            mat_ok(r.mvp),
            r.mvp == Mat4::identity_spec(),
    {
        FlatShader { color, mvp: Mat4::identity() }
    }

    pub fn with_mvp(color: Rgb, mvp: Mat4) -> (r: FlatShader)
        requires
            mat_ok(mvp),
        ensures
            r.color == color,
            r.mvp == mvp,
            mat_ok(r.mvp),
    {
        FlatShader { color, mvp }
    }
}

impl<M: Model> Shader<M> for FlatShader {
    open spec fn inv(&self) -> bool {
        mat_ok(self.mvp)
    }

    open spec fn vertex_spec(&self, model: M, face: int, nth_vert: int) -> Vec4 {
        clip_of(self.mvp, model.vert_spec(face, nth_vert))
    }

    open spec fn fragment_spec(&self, model: M, info: FragmentInfo) -> Fragment {
        Fragment::Color(self.color)
    }

    fn vertex(&self, model: &M, face: usize, nth_vert: usize) -> (r: Vec4) {
        clip_exec(&self.mvp, model.vert(face, nth_vert))
    }

    fn fragment(&self, model: &M, info: &FragmentInfo) -> (r: Fragment) {
        Fragment::Color(self.color)
    }
}

/// Maps a texture over each face by its corners' texture coordinates (in units of
/// `1 / UV_ONE`), interpolated perspective-correct; model points are transformed
/// to clip space by `mvp`.
#[derive(Debug)]
pub struct TextureShader {
    pub texture: Texture,
    pub mvp: Mat4,
}

pub open spec fn attr_ok(v: i64) -> bool {
    abs(v as int) <= ATTR_LIMIT
}

impl TextureShader {
    pub fn new(texture: Texture, mvp: Mat4) -> (r: TextureShader)
        ensures
            r.texture == texture,
            r.mvp == mvp,
    {
        TextureShader { texture, mvp }
    }
}

impl<M: Model> Shader<M> for TextureShader {
    open spec fn inv(&self) -> bool {
        self.texture.wf() && mat_ok(self.mvp)
    }

    open spec fn vertex_spec(&self, model: M, face: int, nth_vert: int) -> Vec4 {
        clip_of(self.mvp, model.vert_spec(face, nth_vert))
    }

    open spec fn fragment_spec(&self, model: M, info: FragmentInfo) -> Fragment {
        let f = info.face as int;
        let t0 = model.texture_coord_spec(f, 0);
        let t1 = model.texture_coord_spec(f, 1);
        let t2 = model.texture_coord_spec(f, 2);
        if attr_ok(t0.x) && attr_ok(t1.x) && attr_ok(t2.x) && attr_ok(t0.y) && attr_ok(t1.y) && attr_ok(t2.y) {
            let u = interpolate_spec(info.bar, [t0.x, t1.x, t2.x]);
            let v = interpolate_spec(info.bar, [t0.y, t1.y, t2.y]);
            if u is Some && v is Some {
                Fragment::Color(filter_spec(self.texture.image, self.texture.filter, u->0 as int, v->0 as int))
            } else {
                Fragment::Discard
            }
        } else {
            Fragment::Discard
        }
    }

    fn vertex(&self, model: &M, face: usize, nth_vert: usize) -> (r: Vec4) {
        clip_exec(&self.mvp, model.vert(face, nth_vert))
    }

    fn fragment(&self, model: &M, info: &FragmentInfo) -> (r: Fragment) {
        let f = info.face;
        let t0 = model.texture_coord(f, 0);
        let t1 = model.texture_coord(f, 1);
        let t2 = model.texture_coord(f, 2);
        let l = ATTR_LIMIT;
        let ok = -l <= t0.x && t0.x <= l && -l <= t1.x && t1.x <= l && -l <= t2.x && t2.x <= l
            && -l <= t0.y && t0.y <= l && -l <= t1.y && t1.y <= l && -l <= t2.y && t2.y <= l;
        if !ok {
            return Fragment::Discard;
        }
        let u = info.barycentric_interpolate([t0.x, t1.x, t2.x]);
        let v = info.barycentric_interpolate([t0.y, t1.y, t2.y]);
        match (u, v) {
            (Some(u), Some(v)) => Fragment::Color(self.texture.get(u, v)),
            _ => Fragment::Discard,
        }
    }
}

} // verus!
