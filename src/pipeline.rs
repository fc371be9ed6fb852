use vstd::prelude::*;
use crate::geometry::Vec4;
use crate::image::{blend_spec, lemma_index_bounds, lemma_index_injective, opaque, ImageOriginPos, PixImage, Rgb, Rgba};
use crate::model::Model;
use crate::raster::{
    abs, affine_spec, area2, barycentric, covered, depth_spec, interpolate_depth, perspective,
    perspective_spec, sample_ok, tri_ok, Bary, ScreenVertex, Triangle, COORD_LIMIT, DEPTH_ONE, W_LIMIT,
};
use crate::util::floor_div;

verus! {

/// What the fragment stage decides for a sample.
#[derive(Clone, Copy, Debug, PartialEq, Eq, Structural)]
pub enum Fragment {
    /// Leave the pixel as it is.
    Discard,
    /// An opaque color.
    Color(Rgb),
    /// A color composited over what the pixel holds.
    Rgba(Rgba),
}

/// What the fragment stage is told of one sample.
#[derive(Clone, Copy, Debug, PartialEq, Eq, Structural)]
pub struct FragmentInfo {
    pub width: u32,
    pub height: u32,
    /// The face being drawn.
    pub face: usize,
    /// The triangle in screen space.
    pub vertices: Triangle,
    /// The sample lies at `(x / q, y / q)` in pixel coordinates.
    pub x: i64,
    pub y: i64,
    pub q: i64,
    /// Its depth, affinely interpolated.
    pub z: i64,
    /// Its perspective-correct barycentric weights.
    pub bar: Bary,
}

impl FragmentInfo {
    /// Perspective-correct weights of the point `(sx / q, sy / q)` of the
    /// triangle's plane.
    pub fn barycentric(&self, sx: i64, sy: i64, q: i64) -> (r: Bary)
        requires
            tri_ok(self.vertices),
            sample_ok(sx as int, sy as int, q as int),
        ensures
            r == perspective_spec(self.vertices, affine_spec(self.vertices, sx as int, sy as int, q as int)),
            crate::raster::bary_bounded(r),
    {
        proof {
            crate::raster::lemma_affine_bounds(self.vertices, sx as int, sy as int, q as int);
            crate::raster::lemma_perspective_bounds(self.vertices, sx as int, sy as int, q as int);
        }
        let w = barycentric(&self.vertices, sx, sy, q);
        perspective(&self.vertices, w)
    }

    /// Weights one pixel above the sample.
    pub fn top_barycentric(&self) -> (r: Bary)
        requires
            tri_ok(self.vertices),
            sample_ok(self.x as int, self.y - self.q, self.q as int),
        ensures
            r == perspective_spec(self.vertices,
                affine_spec(self.vertices, self.x as int, self.y - self.q, self.q as int)),
            crate::raster::bary_bounded(r),
    {
        self.barycentric(self.x, self.y - self.q, self.q)
    }

    /// Weights one pixel right of the sample.
    pub fn right_barycentry(&self) -> (r: Bary)
        requires
            tri_ok(self.vertices),
            sample_ok(self.x + self.q, self.y as int, self.q as int),
        ensures
            r == perspective_spec(self.vertices,
                affine_spec(self.vertices, self.x + self.q, self.y as int, self.q as int)),
            crate::raster::bary_bounded(r),
    {
        self.barycentric(self.x + self.q, self.y, self.q)
    }

    /// The sample's normalized-device position: x and y in `[-1, 1]` across the
    /// image, in units of `1 / DEPTH_ONE`, rounded down, and its depth.
    pub fn coordinate(&self) -> (r: (i64, i64, i64))
        requires
            self.width >= 1,
            self.height >= 1,
            1 <= self.q <= crate::raster::Q_LIMIT,
            abs(self.x as int) <= (COORD_LIMIT + 2) * self.q,
            abs(self.y as int) <= (COORD_LIMIT + 2) * self.q,
        ensures
            r.0 == crate::raster::clamp_i64((2 * self.x - self.q * self.width) * DEPTH_ONE / (self.q * self.width)),
            r.1 == crate::raster::clamp_i64((2 * self.y - self.q * self.height) * DEPTH_ONE / (self.q * self.height)),
            r.2 == self.z,
    {
        let q = self.q as i128;
        proof {
            assert(1 <= q * self.width <= 512 * 0xffff_ffff) by (nonlinear_arith)
                requires 1 <= q <= 512, 1 <= self.width <= 0xffff_ffff;
            assert(1 <= q * self.height <= 512 * 0xffff_ffff) by (nonlinear_arith)
                requires 1 <= q <= 512, 1 <= self.height <= 0xffff_ffff;
            assert((COORD_LIMIT + 2) * q <= (COORD_LIMIT + 2) * 512) by (nonlinear_arith) requires q <= 512;
        }
        let dw = q * self.width as i128;
        let dh = q * self.height as i128;
        proof {
            let ex = 2 * self.x - dw;
            let ey = 2 * self.y - dh;
            assert(-0x1000_0000_0000 <= ex <= 0x1000_0000_0000);
            assert(-0x1000_0000_0000 <= ey <= 0x1000_0000_0000);
            assert(-0x1000_0000_0000 * 0x1_0000 <= ex * 0x1_0000 <= 0x1000_0000_0000 * 0x1_0000) by (nonlinear_arith)
                requires -0x1000_0000_0000 <= ex <= 0x1000_0000_0000;
            assert(-0x1000_0000_0000 * 0x1_0000 <= ey * 0x1_0000 <= 0x1000_0000_0000 * 0x1_0000) by (nonlinear_arith)
                requires -0x1000_0000_0000 <= ey <= 0x1000_0000_0000;
        }
        let nx: i128 = (2 * self.x as i128 - dw) * (DEPTH_ONE as i128);
        let ny: i128 = (2 * self.y as i128 - dh) * (DEPTH_ONE as i128);
        let cx = floor_div(nx, dw);
        let cy = floor_div(ny, dh);
        (crate::mipmap::clamp_to_i64(cx), crate::mipmap::clamp_to_i64(cy), self.z)
    }

    /// The per-vertex values `props` interpolated at the sample, perspective-correct.
    pub fn barycentric_interpolate(&self, props: [i64; 3]) -> (r: Option<i64>)
        requires
            info_ok(*self),
            abs(props[0] as int) <= crate::raster::ATTR_LIMIT,
            abs(props[1] as int) <= crate::raster::ATTR_LIMIT,
            abs(props[2] as int) <= crate::raster::ATTR_LIMIT,
        ensures
            r == crate::raster::interpolate_spec(self.bar, props),
    {
        proof {
            crate::raster::lemma_perspective_bounds(self.vertices, self.x as int, self.y as int, self.q as int);
        }
        self.bar.interpolate(props)
    }
}

/// `info` describes a sample of a well-formed, non-degenerate triangle.
pub open spec fn info_ok(info: FragmentInfo) -> bool {
    &&& tri_ok(info.vertices)
    &&& area2(info.vertices) != 0
    &&& sample_ok(info.x as int, info.y as int, info.q as int)
    &&& info == sample_info(info.vertices, info.face as int, info.width, info.height,
        info.x as int, info.y as int, info.q as int)
}

/// The two stages a mesh is drawn with.
pub trait Shader<M: Model> {
    /// What the shader's own state must satisfy.
    spec fn inv(&self) -> bool;

    /// Clip-space position of corner `nth_vert` of face `face`.
    spec fn vertex_spec(&self, model: M, face: int, nth_vert: int) -> Vec4;

    /// The color decided for a sample.
    spec fn fragment_spec(&self, model: M, info: FragmentInfo) -> Fragment;

    fn vertex(&self, model: &M, face: usize, nth_vert: usize) -> (r: Vec4)
        requires
            self.inv(),
            model.wf(),
            face < model.faces(),
            nth_vert < 3,
        ensures
            r == self.vertex_spec(*model, face as int, nth_vert as int),
    ;

    fn fragment(&self, model: &M, info: &FragmentInfo) -> (r: Fragment)
        requires
            self.inv(),
            model.wf(),
            info_ok(*info),
            info.face < model.faces(),
        ensures
            r == self.fragment_spec(*model, *info),
    ;
}

/// The fragment-stage input for the sample at `(sx / q, sy / q)`.
pub open spec fn sample_info(t: Triangle, face: int, width: u32, height: u32, sx: int, sy: int, q: int) -> FragmentInfo {
    FragmentInfo {
        width,
        height,
        face: face as usize,
        vertices: t,
        x: sx as i64,
        y: sy as i64,
        q: q as i64,
        z: depth_spec(t, sx, sy, q),
        bar: perspective_spec(t, affine_spec(t, sx, sy, q)),
    }
}

/// Largest supersampling factor the rasterizer takes: samples lie at multiples of
/// `1 / (2 * n)` of a pixel, and the weight arithmetic allows a scale of at most
/// `Q_LIMIT`.
pub const SUPERSAMPLE_LIMIT: u32 = 256;

/// Sample `k` of an `n` by `n` supersampling of pixel `(x, y)`: the center of
/// cell `(k % n, k / n)` of an `n` by `n` grid over the pixel, as the position
/// `(sx / q, sy / q)` given by the triple `(sx, sy, q)`.
pub open spec fn sample_pos(n: int, x: int, y: int, k: int) -> (int, int, int) {
    let q = 2 * n;
    (x * q + 2 * (k % n) + 1 - n, y * q + 2 * (k / n) + 1 - n, q)
}

/// The color that a fragment contributes to an average of samples.
pub open spec fn sample_color(f: Fragment) -> Option<Rgba> {
    match f {
        Fragment::Discard => None,
        Fragment::Color(c) => Some(opaque(c)),
        Fragment::Rgba(c) => Some(c),
    }
}

/// Channel sums and count of the colored samples among the first `k` samples of
/// pixel `(x, y)`.
pub open spec fn sample_sums<M: Model, S: Shader<M>>(
    shader: S, model: M, face: int, t: Triangle, width: u32, height: u32,
    n: int, x: int, y: int, k: int,
) -> (int, int, int, int, int)
    decreases k,
{
    if k <= 0 {
        (0, 0, 0, 0, 0)
    } else {
        let prev = sample_sums(shader, model, face, t, width, height, n, x, y, k - 1);
        let p = sample_pos(n, x, y, k - 1);
        if covered(t, p.0, p.1, p.2) {
            match sample_color(shader.fragment_spec(model, sample_info(t, face, width, height, p.0, p.1, p.2))) {
                Some(c) => (prev.0 + c.r, prev.1 + c.g, prev.2 + c.b, prev.3 + c.a, prev.4 + 1),
                None => prev,
            }
        } else {
            prev
        }
    }
}

/// The average of the colored samples.
pub open spec fn average(s: (int, int, int, int, int)) -> Rgba {
    Rgba { r: (s.0 / s.4) as u8, g: (s.1 / s.4) as u8, b: (s.2 / s.4) as u8, a: (s.3 / s.4) as u8 }
}

/// Largest magnitude of a depth drawn without supersampling: 1.1 in normalized-device
/// units, a margin that stands in for clipping at the near and far planes.
pub const DEPTH_RANGE: i64 = 72089;

/// The color and depth of pixel `(x, y)` after drawing the triangle over the color
/// and depth it held, `old`. Without supersampling (`n <= 1`) the pixel center is
/// the only sample, drawn where its depth is within `DEPTH_RANGE`; with it, the
/// `n * n` samples are averaged and the depth test is made once, at the pixel
/// center.
pub open spec fn pixel_step<M: Model, S: Shader<M>>(
    shader: S, model: M, face: int, t: Triangle, width: u32, height: u32,
    n: int, x: int, y: int, old: (Rgba, i64),
) -> (Rgba, i64) {
    let d = depth_spec(t, x, y, 1);
    if n <= 1 {
        if covered(t, x, y, 1) && d > old.1 && -DEPTH_RANGE <= d <= DEPTH_RANGE {
            match shader.fragment_spec(model, sample_info(t, face, width, height, x, y, 1)) {
                Fragment::Discard => old,
                Fragment::Color(c) => (opaque(c), d),
                Fragment::Rgba(c) => (blend_spec(c, old.0), d),
            }
        } else {
            old
        }
    } else {
        let s = sample_sums(shader, model, face, t, width, height, n, x, y, n * n);
        if s.4 > 0 && d > old.1 {
            (blend_spec(average(s), old.0), d)
        } else {
            old
        }
    }
}

/// Position of pixel `(x, y)` in a depth buffer.
pub open spec fn depth_index(width: int, x: int, y: int) -> int {
    y * width + x
}

/// The sub-pixel offsets of an `m` by `m` supersampling, scaled by `2 * m`:
/// offset `k` is `((k % m + 1/2) / m - 1/2, (k / m + 1/2) / m - 1/2)`, the center
/// of cell `(k % m, k / m)` of an `m` by `m` grid over the pixel.
pub open spec fn offsets_ok(offsets: Seq<(i64, i64)>, m: int) -> bool {
    &&& offsets.len() == m * m
    &&& forall|k: int| 0 <= k < m * m ==> #[trigger] offsets[k] == (
        (2 * (k % m) + 1 - m) as i64,
        (2 * (k / m) + 1 - m) as i64,
    )
}

/// The sample offsets of `m` by `m` supersampling.
pub fn super_sampling_offsets(m: u32) -> (r: Vec<(i64, i64)>)
    requires
        1 <= m <= 0xffff,
    ensures
        offsets_ok(r@, m as int),
{
    proof {
        assert(m * m <= 0xffff * 0xffff) by (nonlinear_arith) requires m <= 0xffff;
    }
    let mm: u32 = m * m;
    let mut r: Vec<(i64, i64)> = Vec::new();
    let mut k: u32 = 0;
    while k < mm
        invariant
            mm == m * m,
            1 <= m <= 0xffff,
            k <= mm,
            r@.len() == k,
            forall|j: int| 0 <= j < k ==> #[trigger] r@[j] == (
                (2 * (j % m as int) + 1 - m) as i64,
                (2 * (j / m as int) + 1 - m) as i64,
            ),
        decreases mm - k,
    {
        proof {
            vstd::arithmetic::div_mod::lemma_div_is_ordered(k as int, mm as int, m as int);
            vstd::arithmetic::div_mod::lemma_div_multiples_vanish(m as int, m as int);
        }
        let dx: i64 = 2 * (k % m) as i64 + 1 - m as i64;
        let dy: i64 = 2 * (k / m) as i64 + 1 - m as i64;
        r.push((dx, dy));
        k = k + 1;
    }
    r
}

proof fn lemma_den_positive(t: Triangle, sx: int, sy: int, q: int)
    requires
        tri_ok(t),
        sample_ok(sx, sy, q),
        area2(t) != 0,
    ensures
        affine_spec(t, sx, sy, q).den > 0,
{
    crate::raster::lemma_affine_bounds(t, sx, sy, q);
    let d = area2(t);
    if d < 0 {
        assert(-1 * (q * d) > 0) by (nonlinear_arith) requires d < 0, q >= 1;
    } else {
        assert(1 * (q * d) > 0) by (nonlinear_arith) requires d > 0, q >= 1;
    }
}

/// The fragment-stage input for a sample whose affine weights are `w`.
fn make_info(t: &Triangle, face: usize, width: u32, height: u32, sx: i64, sy: i64, q: i64, w: Bary) -> (r: FragmentInfo)
    requires
        tri_ok(*t),
        area2(*t) != 0,
        sample_ok(sx as int, sy as int, q as int),
        w == affine_spec(*t, sx as int, sy as int, q as int),
    ensures
        r == sample_info(*t, face as int, width, height, sx as int, sy as int, q as int),
{
    proof {
        crate::raster::lemma_affine_bounds(*t, sx as int, sy as int, q as int);
        lemma_den_positive(*t, sx as int, sy as int, q as int);
    }
    let z = interpolate_depth(t, w);
    let bar = perspective(t, w);
    FragmentInfo { width, height, face, vertices: *t, x: sx, y: sy, q, z, bar }
}

proof fn lemma_sample_ok(n: int, x: int, y: int, k: int)
    requires
        2 <= n <= SUPERSAMPLE_LIMIT,
        0 <= k < n * n,
        abs(x) <= COORD_LIMIT,
        abs(y) <= COORD_LIMIT,
    ensures
        sample_ok(sample_pos(n, x, y, k).0, sample_pos(n, x, y, k).1, sample_pos(n, x, y, k).2),
        abs(x * (2 * n)) <= COORD_LIMIT * 512,
        abs(y * (2 * n)) <= COORD_LIMIT * 512,
{
    let q = 2 * n;
    let l = COORD_LIMIT as int;
    crate::raster::lemma_mul_abs(x, q, l, q);
    crate::raster::lemma_mul_abs(y, q, l, q);
    crate::raster::lemma_mul_abs(x, q, l, 512);
    crate::raster::lemma_mul_abs(y, q, l, 512);
    vstd::arithmetic::div_mod::lemma_div_is_ordered(k, n * n, n);
    vstd::arithmetic::div_mod::lemma_div_multiples_vanish(n, n);
    assert(0 <= k % n < n) by { vstd::arithmetic::div_mod::lemma_mod_bound(k, n); }
    assert((l + 2) * q == l * q + 2 * q) by (nonlinear_arith);
}

/// Channel sums and count of the colored samples of pixel `(x, y)`.
fn accumulate_samples<M: Model, S: Shader<M>>(
    shader: &S, model: &M, face: usize, t: &Triangle, width: u32, height: u32,
    offsets: &Vec<(i64, i64)>, n: u32, x: i64, y: i64,
) -> (r: (u32, u32, u32, u32, u32))
    requires
        model.wf(),
        shader.inv(),
        face < model.faces(),
        tri_ok(*t),
        area2(*t) != 0,
        2 <= n <= SUPERSAMPLE_LIMIT,
        offsets_ok(offsets@, n as int),
        abs(x as int) <= COORD_LIMIT,
        abs(y as int) <= COORD_LIMIT,
    ensures
        (r.0 as int, r.1 as int, r.2 as int, r.3 as int, r.4 as int)
            == sample_sums(*shader, *model, face as int, *t, width, height, n as int, x as int, y as int, n * n),
        r.4 <= n * n,
{
    proof {
        assert(n * n <= 0x1_0000) by (nonlinear_arith) requires n <= 256;
    }
    let nn: u32 = n * n;
    let q: i64 = 2 * (n as i64);
    let mut acc: (u32, u32, u32, u32, u32) = (0, 0, 0, 0, 0);
    let mut k: u32 = 0;
    while k < nn
        invariant
            model.wf(),
            shader.inv(),
            face < model.faces(),
            tri_ok(*t),
            area2(*t) != 0,
            2 <= n <= SUPERSAMPLE_LIMIT,
            nn == n * n,
            nn <= 0x1_0000,
            q == 2 * n,
            offsets_ok(offsets@, n as int),
            abs(x as int) <= COORD_LIMIT,
            abs(y as int) <= COORD_LIMIT,
            k <= nn,
            acc.4 <= k,
            acc.0 <= 255 * k && acc.1 <= 255 * k && acc.2 <= 255 * k && acc.3 <= 255 * k,
            (acc.0 as int, acc.1 as int, acc.2 as int, acc.3 as int, acc.4 as int)
                == sample_sums(*shader, *model, face as int, *t, width, height, n as int, x as int, y as int, k as int),
        decreases nn - k,
    {
        proof {
            lemma_sample_ok(n as int, x as int, y as int, k as int);
        }
        let (dx, dy) = offsets[k as usize];
        let sx: i64 = x * q + dx;
        let sy: i64 = y * q + dy;
        let w = barycentric(t, sx, sy, q);
        if w.a >= 0 && w.b >= 0 && w.c >= 0 {
            let info = make_info(t, face, width, height, sx, sy, q, w);
            match shader.fragment(model, &info) {
                Fragment::Discard => {},
                Fragment::Color(c) => {
                    acc = (acc.0 + c.r as u32, acc.1 + c.g as u32, acc.2 + c.b as u32, acc.3 + 255, acc.4 + 1);
                },
                Fragment::Rgba(c) => {
                    acc = (acc.0 + c.r as u32, acc.1 + c.g as u32, acc.2 + c.b as u32, acc.3 + c.a as u32, acc.4 + 1);
                },
            }
        }
        k = k + 1;
    }
    acc
}

/// The color and depth held for pixel `(x, y)`.
pub open spec fn px_state(img: PixImage, depth: Seq<i64>, x: int, y: int) -> (Rgba, i64) {
    (img.pixel(x, y), depth[depth_index(img.width as int, x, y)])
}

pub open spec fn buffers_ok(img: PixImage, depth: Seq<i64>) -> bool {
    img.wf() && depth.len() == img.width * img.height
}

proof fn lemma_depth_index(w: int, h: int, x: int, y: int, x2: int, y2: int)
    requires
        0 <= x < w,
        0 <= y < h,
        0 <= x2 < w,
        0 <= y2 < h,
    ensures
        0 <= depth_index(w, x, y) < w * h,
        (x != x2 || y != y2) ==> depth_index(w, x, y) != depth_index(w, x2, y2),
{
    lemma_index_bounds(w, h, ImageOriginPos::LeftTop, x, y);
    if x != x2 || y != y2 {
        lemma_index_injective(w, h, ImageOriginPos::LeftTop, x, y, x2, y2);
    }
}

/// Draws the triangle's samples at pixel `(x, y)`.
fn shade_pixel<M: Model, S: Shader<M>>(
    img: &mut PixImage, depth: &mut Vec<i64>, shader: &S, model: &M, face: usize,
    t: &Triangle, offsets: &Vec<(i64, i64)>, n: u32, x: u32, y: u32,
)
    requires
        buffers_ok(*old(img), old(depth)@),
        model.wf(),
        shader.inv(),
        face < model.faces(),
        tri_ok(*t),
        area2(*t) != 0,
        x < old(img).width,
        y < old(img).height,
        x <= COORD_LIMIT,
        y <= COORD_LIMIT,
        n <= SUPERSAMPLE_LIMIT,
        n >= 2 ==> offsets_ok(offsets@, n as int),
    ensures
        buffers_ok(*final(img), final(depth)@),
        final(img).width == old(img).width,
        final(img).height == old(img).height,
        final(img).origin == old(img).origin,
        px_state(*final(img), final(depth)@, x as int, y as int) == pixel_step(
            *shader, *model, face as int, *t, old(img).width, old(img).height, n as int, x as int, y as int,
            px_state(*old(img), old(depth)@, x as int, y as int)),
        forall|x2: int, y2: int|
            #![trigger px_state(*final(img), final(depth)@, x2, y2)]
            0 <= x2 < old(img).width && 0 <= y2 < old(img).height && (x2 != x || y2 != y)
                ==> px_state(*final(img), final(depth)@, x2, y2) == px_state(*old(img), old(depth)@, x2, y2),
{
    let width = img.width;
    let height = img.height;
    proof {
        lemma_depth_index(width as int, height as int, x as int, y as int, x as int, y as int);
        assert(y * width <= y * width + x < width * height) by (nonlinear_arith)
            requires y < height, x < width;
        assert(width * height <= 4 * width * height) by (nonlinear_arith);
    }
    let idx: usize = y as usize * width as usize + x as usize;
    let w = barycentric(t, x as i64, y as i64, 1);
    proof {
        crate::raster::lemma_affine_bounds(*t, x as int, y as int, 1);
        lemma_den_positive(*t, x as int, y as int, 1);
        assert forall|x2: int, y2: int|
            0 <= x2 < width && 0 <= y2 < height && (x2 != x || y2 != y) implies
                depth_index(width as int, x2, y2) != idx by {
            lemma_depth_index(width as int, height as int, x as int, y as int, x2, y2);
        }
    }
    let d = interpolate_depth(t, w);
    if n <= 1 {
        if w.a >= 0 && w.b >= 0 && w.c >= 0 && d > depth[idx] && -DEPTH_RANGE <= d && d <= DEPTH_RANGE {
            let info = make_info(t, face, width, height, x as i64, y as i64, 1, w);
            match shader.fragment(model, &info) {
                Fragment::Discard => {},
                Fragment::Color(c) => {
                    depth.set(idx, d);
                    img.set_rgb24(x, y, c);
                },
                Fragment::Rgba(c) => {
                    depth.set(idx, d);
                    img.blending(x, y, c);
                },
            }
        }
    } else {
        let s = accumulate_samples(shader, model, face, t, width, height, offsets, n, x as i64, y as i64);
        if s.4 > 0 && d > depth[idx] {
            let avg = Rgba {
                r: (s.0 / s.4) as u8,
                g: (s.1 / s.4) as u8,
                b: (s.2 / s.4) as u8,
                a: (s.3 / s.4) as u8,
            };
            depth.set(idx, d);
            img.blending(x, y, avg);
        }
    }
    proof {
        assert forall|x2: int, y2: int|
            0 <= x2 < width && 0 <= y2 < height && (x2 != x || y2 != y) implies
                px_state(*img, depth@, x2, y2) == px_state(*old(img), old(depth)@, x2, y2) by {
            assert(img.pixel(x2, y2) == old(img).pixel(x2, y2));
            assert(depth_index(width as int, x2, y2) != idx);
            lemma_depth_index(width as int, height as int, x2, y2, x2, y2);
        }
    }
}

pub open spec fn min3(a: i64, b: i64, c: i64) -> i64 {
    if a <= b && a <= c { a } else if b <= c { b } else { c }
}

pub open spec fn max3(a: i64, b: i64, c: i64) -> i64 {
    if a >= b && a >= c { a } else if b >= c { b } else { c }
}

/// The triangle is non-degenerate and pixel `(x, y)` lies in it and in its
/// bounding box.
pub open spec fn covered_pixel(t: Triangle, x: int, y: int) -> bool {
    area2(t) != 0 && in_box(t, x, y) && covered(t, x, y, 1)
}

/// Pixel `(x, y)` lies in the triangle's bounding box.
pub open spec fn in_box(t: Triangle, x: int, y: int) -> bool {
    &&& min3(t.a.x, t.b.x, t.c.x) <= x <= max3(t.a.x, t.b.x, t.c.x)
    &&& min3(t.a.y, t.b.y, t.c.y) <= y <= max3(t.a.y, t.b.y, t.c.y)
}

/// Pixel `(x, y)` after drawing the triangle: a degenerate triangle, and every
/// pixel outside its bounding box, is left alone.
pub open spec fn raster_step<M: Model, S: Shader<M>>(
    shader: S, model: M, face: int, t: Triangle, width: u32, height: u32,
    n: int, x: int, y: int, old: (Rgba, i64),
) -> (Rgba, i64) {
    if area2(t) != 0 && in_box(t, x, y) {
        pixel_step(shader, model, face, t, width, height, n, x, y, old)
    } else {
        old
    }
}

fn min3_exec(a: i64, b: i64, c: i64) -> (r: i64)
    ensures
        r == min3(a, b, c),
{
    if a <= b && a <= c { a } else if b <= c { b } else { c }
}

fn max3_exec(a: i64, b: i64, c: i64) -> (r: i64)
    ensures
        r == max3(a, b, c),
{
    if a >= b && a >= c { a } else if b >= c { b } else { c }
}

/// Draws one screen-space triangle of face `face` into the color and depth
/// buffers, with `n` by `n` supersampling where `n >= 2`.
pub fn rasterize_triangle<M: Model, S: Shader<M>>(
    img: &mut PixImage, depth: &mut Vec<i64>, shader: &S, model: &M, face: usize,
    t: &Triangle, offsets: &Vec<(i64, i64)>, n: u32,
)
    requires
        buffers_ok(*old(img), old(depth)@),
        model.wf(),
        shader.inv(),
        face < model.faces(),
        tri_ok(*t),
        n <= SUPERSAMPLE_LIMIT,
        n >= 2 ==> offsets_ok(offsets@, n as int),
    ensures
        buffers_ok(*final(img), final(depth)@),
        final(img).width == old(img).width,
        final(img).height == old(img).height,
        final(img).origin == old(img).origin,
        forall|x: int, y: int|
            #![trigger px_state(*final(img), final(depth)@, x, y)]
            0 <= x < old(img).width && 0 <= y < old(img).height
                ==> px_state(*final(img), final(depth)@, x, y) == raster_step(
                    *shader, *model, face as int, *t, old(img).width, old(img).height, n as int, x, y,
                    px_state(*old(img), old(depth)@, x, y)),
{
    let ghost img0 = *img;
    let ghost depth0 = depth@;
    let width = img.width;
    let height = img.height;
    let area = barycentric(t, 0, 0, 1).den;
    proof {
        crate::raster::lemma_affine_bounds(*t, 0, 0, 1);
        if area2(*t) != 0 {
            lemma_den_positive(*t, 0, 0, 1);
        }
    }
    if area == 0 {
        return;
    }
    let lo_x = min3_exec(t.a.x, t.b.x, t.c.x);
    let hi_x = max3_exec(t.a.x, t.b.x, t.c.x);
    let lo_y = min3_exec(t.a.y, t.b.y, t.c.y);
    let hi_y = max3_exec(t.a.y, t.b.y, t.c.y);
    let min_x: i64 = if lo_x < 0 { 0 } else { lo_x };
    let max_x: i64 = if hi_x > width as i64 - 1 { width as i64 - 1 } else { hi_x };
    let min_y: i64 = if lo_y < 0 { 0 } else { lo_y };
    let max_y: i64 = if hi_y > height as i64 - 1 { height as i64 - 1 } else { hi_y };
    let mut y: i64 = min_y;
    while y <= max_y
        invariant
            buffers_ok(*img, depth@),
            model.wf(),
            shader.inv(),
            face < model.faces(),
            tri_ok(*t),
            area2(*t) != 0,
            n <= SUPERSAMPLE_LIMIT,
            n >= 2 ==> offsets_ok(offsets@, n as int),
            img.width == width,
            img.height == height,
            img.origin == img0.origin,
            img0.width == width,
            img0.height == height,
            lo_y <= min_y <= y,
            min_y >= 0,
            max_y <= hi_y,
            max_y <= height as i64 - 1,
            min_x >= 0,
            min_x >= lo_x,
            max_x <= hi_x,
            max_x <= width as i64 - 1,
            lo_x == min3(t.a.x, t.b.x, t.c.x),
            hi_x == max3(t.a.x, t.b.x, t.c.x),
            min_x == (if lo_x < 0 { 0 } else { lo_x }),
            max_x == (if hi_x > width - 1 { width - 1 } else { hi_x as int }),
            min_y == (if lo_y < 0 { 0 } else { lo_y }),
            max_y == (if hi_y > height - 1 { height - 1 } else { hi_y as int }),
            lo_y == min3(t.a.y, t.b.y, t.c.y),
            hi_y == max3(t.a.y, t.b.y, t.c.y),
            forall|x2: int, y2: int|
                #![trigger px_state(*img, depth@, x2, y2)]
                0 <= x2 < width && 0 <= y2 < height
                    ==> px_state(*img, depth@, x2, y2) == (if in_box(*t, x2, y2) && y2 < y {
                        pixel_step(*shader, *model, face as int, *t, width, height, n as int, x2, y2,
                            px_state(img0, depth0, x2, y2))
                    } else {
                        px_state(img0, depth0, x2, y2)
                    }),
        decreases max_y + 1 - y,
    {
        let mut x: i64 = min_x;
        while x <= max_x
            invariant
                buffers_ok(*img, depth@),
                model.wf(),
                shader.inv(),
                face < model.faces(),
                tri_ok(*t),
                area2(*t) != 0,
                n <= SUPERSAMPLE_LIMIT,
                n >= 2 ==> offsets_ok(offsets@, n as int),
                img.width == width,
                img.height == height,
                img.origin == img0.origin,
                img0.width == width,
                img0.height == height,
                lo_y <= min_y <= y <= max_y,
                min_y >= 0,
                max_y <= hi_y,
                max_y <= height as i64 - 1,
                min_x >= 0,
                min_x >= lo_x,
                min_x <= x,
                max_x <= hi_x,
                max_x <= width as i64 - 1,
                lo_x == min3(t.a.x, t.b.x, t.c.x),
                hi_x == max3(t.a.x, t.b.x, t.c.x),
                min_x == (if lo_x < 0 { 0 } else { lo_x }),
                max_x == (if hi_x > width - 1 { width - 1 } else { hi_x as int }),
                lo_y == min3(t.a.y, t.b.y, t.c.y),
                hi_y == max3(t.a.y, t.b.y, t.c.y),
                forall|x2: int, y2: int|
                    #![trigger px_state(*img, depth@, x2, y2)]
                    0 <= x2 < width && 0 <= y2 < height
                        ==> px_state(*img, depth@, x2, y2) == (if in_box(*t, x2, y2) && (y2 < y || (y2 == y && x2 < x)) {
                            pixel_step(*shader, *model, face as int, *t, width, height, n as int, x2, y2,
                                px_state(img0, depth0, x2, y2))
                        } else {
                            px_state(img0, depth0, x2, y2)
                        }),
            decreases max_x + 1 - x,
        {
            proof {
                assert(in_box(*t, x as int, y as int));
                assert(px_state(*img, depth@, x as int, y as int) == px_state(img0, depth0, x as int, y as int));
            }
            shade_pixel(img, depth, shader, model, face, t, offsets, n, x as u32, y as u32);
            x = x + 1;
        }
        y = y + 1;
    }
}

/// Perspective divide and viewport transform: normalized-device `[-1, 1]` maps to
/// `[0, width]` and `[0, height]`, rounded down; depth is kept in units of
/// `1 / DEPTH_ONE`. `None` where `w` is not in `1..=W_LIMIT` (a vertex on or behind
/// the eye) or the result leaves the coordinate range.
pub open spec fn to_screen_spec(v: Vec4, width: int, height: int) -> Option<ScreenVertex> {
    if v.w <= 0 || v.w > W_LIMIT {
        None
    } else {
        let x = ((v.x + v.w) * width) / (2 * v.w);
        let y = ((v.y + v.w) * height) / (2 * v.w);
        let z = (v.z * DEPTH_ONE) / (v.w as int);
        if abs(x) <= COORD_LIMIT && abs(y) <= COORD_LIMIT && abs(z) <= COORD_LIMIT {
            Some(ScreenVertex { x: x as i64, y: y as i64, z: z as i64, w: v.w })
        } else {
            None
        }
    }
}

/// The screen-space vertex of clip-space position `v`.
pub fn to_screen(v: Vec4, width: u32, height: u32) -> (r: Option<ScreenVertex>)
    ensures
        r == to_screen_spec(v, width as int, height as int),
        r is Some ==> crate::raster::vertex_ok(r->0),
{
    if v.w <= 0 || v.w > W_LIMIT {
        return None;
    }
    let w2: i128 = 2 * (v.w as i128);
    proof {
        crate::raster::lemma_mul_abs(v.x + v.w, width as int, 0x1_0000_0000_0000_0000, 0x1_0000_0000);
        crate::raster::lemma_mul_abs(v.y + v.w, height as int, 0x1_0000_0000_0000_0000, 0x1_0000_0000);
        crate::raster::lemma_mul_abs(v.z as int, DEPTH_ONE as int, 0x1_0000_0000_0000_0000, DEPTH_ONE as int);
    }
    let x = floor_div((v.x as i128 + v.w as i128) * (width as i128), w2);
    let y = floor_div((v.y as i128 + v.w as i128) * (height as i128), w2);
    let z = floor_div((v.z as i128) * (DEPTH_ONE as i128), v.w as i128);
    let l = COORD_LIMIT as i128;
    if -l <= x && x <= l && -l <= y && y <= l && -l <= z && z <= l {
        Some(ScreenVertex { x: x as i64, y: y as i64, z: z as i64, w: v.w })
    } else {
        None
    }
}

/// The screen-space triangle of face `f`, or `None` where a corner has no
/// screen-space position.
pub open spec fn face_triangle<M: Model, S: Shader<M>>(shader: S, model: M, f: int, width: u32, height: u32) -> Option<Triangle> {
    let a = to_screen_spec(shader.vertex_spec(model, f, 0), width as int, height as int);
    let b = to_screen_spec(shader.vertex_spec(model, f, 1), width as int, height as int);
    let c = to_screen_spec(shader.vertex_spec(model, f, 2), width as int, height as int);
    if a is Some && b is Some && c is Some {
        Some(Triangle { a: a->0, b: b->0, c: c->0 })
    } else {
        None
    }
}

/// Pixel `(x, y)` after drawing faces `0..k` in order over the color and depth
/// `start`.
pub open spec fn render_spec<M: Model, S: Shader<M>>(
    shader: S, model: M, width: u32, height: u32, n: int, x: int, y: int,
    start: (Rgba, i64), k: int,
) -> (Rgba, i64)
    decreases k,
{
    if k <= 0 {
        start
    } else {
        let prev = render_spec(shader, model, width, height, n, x, y, start, k - 1);
        match face_triangle(shader, model, k - 1, width, height) {
            Some(t) => raster_step(shader, model, k - 1, t, width, height, n, x, y, prev),
            None => prev,
        }
    }
}

/// Draws every face of `model` in order, `super_sampling` by `super_sampling`
/// samples per pixel where it is 2 or more. The factor is at most
/// `SUPERSAMPLE_LIMIT`: a factor `n` puts samples at multiples of `1 / (2 * n)`
/// of a pixel, and the exact weight arithmetic, with the coordinate, `w` and
/// attribute limits of `raster`, holds that scale to `Q_LIMIT`.
pub fn render<M: Model, S: Shader<M>>(
    img: &mut PixImage, depth_buff: &mut Vec<i64>, shader: &S, model: &M, super_sampling: u32,
)
    requires
        buffers_ok(*old(img), old(depth_buff)@),
        model.wf(),
        shader.inv(),
        super_sampling <= SUPERSAMPLE_LIMIT,
    ensures
        buffers_ok(*final(img), final(depth_buff)@),
        final(img).width == old(img).width,
        final(img).height == old(img).height,
        final(img).origin == old(img).origin,
        forall|x: int, y: int|
            #![trigger px_state(*final(img), final(depth_buff)@, x, y)]
            0 <= x < old(img).width && 0 <= y < old(img).height
                ==> px_state(*final(img), final(depth_buff)@, x, y) == render_spec(
                    *shader, *model, old(img).width, old(img).height, super_sampling as int, x, y,
                    px_state(*old(img), old(depth_buff)@, x, y), model.faces()),
{
    let ghost img0 = *img;
    let ghost depth0 = depth_buff@;
    let width = img.width;
    let height = img.height;
    let offsets = if super_sampling >= 2 { super_sampling_offsets(super_sampling) } else { Vec::new() };
    let nfaces = model.face_count();
    let mut f: usize = 0;
    while f < nfaces
        invariant
            buffers_ok(*img, depth_buff@),
            model.wf(),
            shader.inv(),
            super_sampling <= SUPERSAMPLE_LIMIT,
            super_sampling >= 2 ==> offsets_ok(offsets@, super_sampling as int),
            img.width == width,
            img.height == height,
            img.origin == img0.origin,
            img0.width == width,
            img0.height == height,
            nfaces == model.faces(),
            f <= model.faces(),
            forall|x: int, y: int|
                #![trigger px_state(*img, depth_buff@, x, y)]
                0 <= x < width && 0 <= y < height
                    ==> px_state(*img, depth_buff@, x, y) == render_spec(
                        *shader, *model, width, height, super_sampling as int, x, y,
                        px_state(img0, depth0, x, y), f as int),
        decreases model.faces() - f,
    {
        let a = to_screen(shader.vertex(model, f, 0), width, height);
        let b = to_screen(shader.vertex(model, f, 1), width, height);
        let c = to_screen(shader.vertex(model, f, 2), width, height);
        match (a, b, c) {
            (Some(a), Some(b), Some(c)) => {
                let t = Triangle { a, b, c };
                rasterize_triangle(img, depth_buff, shader, model, f, &t, &offsets, super_sampling);
            },
            _ => {},
        }
        f = f + 1;
    }
}

} // verus!
