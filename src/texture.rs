use vstd::prelude::*;
use crate::image::{PixImage, Rgb, Rgba};
use crate::util::{is_sub_img, lerp, linear_interpolation, part, sub_img, FRAC_ONE};
use crate::geometry::Vec3;
use crate::image::ImageOriginPos;

verus! {

/// Texture coordinates are fixed-point: `UV_ONE` stands for 1.
pub const UV_ONE: i64 = 0x1_0000;

/// How a texture is sampled between texels.
#[derive(Clone, Copy, Debug, PartialEq, Eq, Structural)]
pub enum Filter {
    Nearest,
    Bilinear,
}

/// An image with the filter it is sampled with.
#[derive(Debug)]
pub struct Texture {
    pub image: PixImage,
    pub filter: Filter,
}

pub open spec fn clamp_uv(u: int) -> int {
    if u < 0 { 0 } else if u > UV_ONE { UV_ONE as int } else { u }
}

pub open spec fn rgb_of(c: Rgba) -> Rgb {
    Rgb { r: c.r, g: c.g, b: c.b }
}

/// A texture that can be sampled: well-formed and not empty.
pub open spec fn sampleable(img: PixImage) -> bool {
    img.wf() && img.width >= 1 && img.height >= 1
}

/// The texel nearest to `(u, v)`, coordinates clamped to `[0, 1]`.
pub open spec fn nearest_spec(img: PixImage, u: int, v: int) -> Rgb {
    let x = ((img.width - 1) * clamp_uv(u) + UV_ONE / 2) / (UV_ONE as int);
    let y = ((img.height - 1) * clamp_uv(v) + UV_ONE / 2) / (UV_ONE as int);
    rgb_of(img.pixel(x, y))
}

pub open spec fn lerp_rgb(t: int, a: Rgb, b: Rgb) -> Rgb {
    Rgb {
        r: lerp(t, a.r as int, b.r as int) as u8,
        g: lerp(t, a.g as int, b.g as int) as u8,
        b: lerp(t, a.b as int, b.b as int) as u8,
    }
}

/// The four texels around `(u, v)`, coordinates clamped to `[0, 1]`, blended
/// first along x, then along y.
pub open spec fn bilinear_spec(img: PixImage, u: int, v: int) -> Rgb {
    let sx = (img.width - 1) * clamp_uv(u);
    let sy = (img.height - 1) * clamp_uv(v);
    let x0 = sx / (UV_ONE as int);
    let y0 = sy / (UV_ONE as int);
    let fx = sx % (UV_ONE as int);
    let fy = sy % (UV_ONE as int);
    let x1 = if fx > 0 { x0 + 1 } else { x0 };
    let y1 = if fy > 0 { y0 + 1 } else { y0 };
    let bottom = lerp_rgb(fx, rgb_of(img.pixel(x0, y0)), rgb_of(img.pixel(x1, y0)));
    let top = lerp_rgb(fx, rgb_of(img.pixel(x0, y1)), rgb_of(img.pixel(x1, y1)));
    lerp_rgb(fy, bottom, top)
}

pub open spec fn filter_spec(img: PixImage, filter: Filter, u: int, v: int) -> Rgb {
    match filter {
        Filter::Nearest => nearest_spec(img, u, v),
        Filter::Bilinear => bilinear_spec(img, u, v),
    }
}

fn clamp_coord(u: i64) -> (r: i64)
    ensures
        r == clamp_uv(u as int),
{
    if u < 0 { 0 } else if u > UV_ONE { UV_ONE } else { u }
}

fn lerp_channel(t: u32, a: u8, b: u8) -> (r: u8)
    requires
        t <= FRAC_ONE,
    ensures
        r == lerp(t as int, a as int, b as int),
{
    linear_interpolation(t, a as i64, b as i64) as u8
}

pub(crate) fn lerp_color(t: u32, a: Rgb, b: Rgb) -> (r: Rgb)
    requires
        t <= FRAC_ONE,
    ensures
        r == lerp_rgb(t as int, a, b),
{
    Rgb { r: lerp_channel(t, a.r, b.r), g: lerp_channel(t, a.g, b.g), b: lerp_channel(t, a.b, b.b) }
}

/// Position of coordinate `u` (clamped) along an axis of `n >= 1` texels, scaled by
/// `UV_ONE`, split into whole texels and a fraction.
fn texel_pos(n: u32, u: i64) -> (r: (u32, u32))
    requires
        n >= 1,
    ensures
        r.0 == ((n - 1) * clamp_uv(u as int)) / (UV_ONE as int),
        r.1 == ((n - 1) * clamp_uv(u as int)) % (UV_ONE as int),
        r.0 < n,
        r.1 > 0 ==> r.0 + 1 < n,
{
    let c = clamp_coord(u) as u64;
    proof {
        assert((n - 1) * c <= (n - 1) * 0x1_0000) by (nonlinear_arith) requires c <= 0x1_0000, n >= 1;
    }
    let s: u64 = (n as u64 - 1) * c;
    let whole = s / (UV_ONE as u64);
    let frac = s % (UV_ONE as u64);
    proof {
        vstd::arithmetic::div_mod::lemma_div_is_ordered(s as int, (n - 1) * 0x1_0000, 0x1_0000);
        vstd::arithmetic::div_mod::lemma_div_multiples_vanish(n - 1, 0x1_0000);
        vstd::arithmetic::div_mod::lemma_fundamental_div_mod(s as int, 0x1_0000);
        if frac > 0 && whole == n - 1 {
            assert(s == 0x1_0000 * whole + frac);
            assert(s > (n - 1) * 0x1_0000) by (nonlinear_arith)
                requires s == 0x1_0000 * whole + frac, frac > 0, whole == n - 1;
        }
    }
    (whole as u32, frac as u32)
}

/// The texel nearest to `(u, v)`.
pub fn nearest(img: &PixImage, u: i64, v: i64) -> (r: Rgb)
    requires
        sampleable(*img),
    ensures
        r == nearest_spec(*img, u as int, v as int),
{
    let cu = clamp_coord(u) as u64;
    let cv = clamp_coord(v) as u64;
    let w = img.width as u64;
    let h = img.height as u64;
    proof {
        assert((w - 1) * cu <= (w - 1) * 0x1_0000) by (nonlinear_arith) requires cu <= 0x1_0000, w >= 1;
        assert((h - 1) * cv <= (h - 1) * 0x1_0000) by (nonlinear_arith) requires cv <= 0x1_0000, h >= 1;
        assert((w - 1) * 0x1_0000 + 0x8000 < w * 0x1_0000) by (nonlinear_arith) requires w >= 1;
        assert((h - 1) * 0x1_0000 + 0x8000 < h * 0x1_0000) by (nonlinear_arith) requires h >= 1;
    }
    let sx: u64 = (w - 1) * cu + (UV_ONE as u64) / 2;
    let sy: u64 = (h - 1) * cv + (UV_ONE as u64) / 2;
    proof {
        vstd::arithmetic::div_mod::lemma_div_is_ordered(sx as int, w * 0x1_0000 - 1, 0x1_0000);
        vstd::arithmetic::div_mod::lemma_div_is_ordered(sy as int, h * 0x1_0000 - 1, 0x1_0000);
        vstd::arithmetic::div_mod::lemma_fundamental_div_mod_converse(w * 0x1_0000 - 1, 0x1_0000, w - 1, 0xffff);
        vstd::arithmetic::div_mod::lemma_fundamental_div_mod_converse(h * 0x1_0000 - 1, 0x1_0000, h - 1, 0xffff);
    }
    let x = (sx / (UV_ONE as u64)) as u32;
    let y = (sy / (UV_ONE as u64)) as u32;
    img.get(x, y)
}

/// The four texels around `(u, v)`, blended.
pub fn bilinear(img: &PixImage, u: i64, v: i64) -> (r: Rgb)
    requires
        sampleable(*img),
    ensures
        r == bilinear_spec(*img, u as int, v as int),
{
    let (x0, fx) = texel_pos(img.width, u);
    let (y0, fy) = texel_pos(img.height, v);
    let x1 = if fx > 0 { x0 + 1 } else { x0 };
    let y1 = if fy > 0 { y0 + 1 } else { y0 };
    let c1 = img.get(x0, y0);
    let c2 = img.get(x1, y0);
    let c3 = lerp_color(fx, c1, c2);
    let c4 = img.get(x0, y1);
    let c5 = img.get(x1, y1);
    let c6 = lerp_color(fx, c4, c5);
    lerp_color(fy, c3, c6)
}

impl Texture {
    pub open spec fn wf(&self) -> bool {
        sampleable(self.image)
    }

    /// A texture sampled bilinearly.
    pub fn new(image: PixImage) -> (r: Texture)
        ensures
            r.image == image,
            r.filter == Filter::Bilinear,
    {
        Texture { image, filter: Filter::Bilinear }
    }

    /// A texture sampled at the nearest texel.
    pub fn neareat(image: PixImage) -> (r: Texture)
        ensures
            r.image == image,
            r.filter == Filter::Nearest,
    {
        Texture { image, filter: Filter::Nearest }
    }

    /// The texture's color at `(u, v)`.
    pub fn get(&self, u: i64, v: i64) -> (r: Rgb)
        requires
            self.wf(),
        ensures
            r == filter_spec(self.image, self.filter, u as int, v as int),
    {
        match self.filter {
            Filter::Nearest => nearest(&self.image, u, v),
            Filter::Bilinear => bilinear(&self.image, u, v),
        }
    }
}

/// Where `(a + m) / 2m` lies, in units of `1 / UV_ONE`, rounded down.
pub open spec fn half_ratio(a: int, m: int) -> int {
    (a + m) * UV_ONE / (2 * m)
}

/// The face of the cube from `(-1, -1, -1)` to `(1, 1, 1)` (coordinates in units
/// of `1 / UV_ONE`) that the ray from the center through `p` leaves by, for a
/// point `p` strictly inside the cube along that face's axis, and the texture
/// coordinates there: faces in the order front (`+z`), back, left (`-x`), right,
/// top (`+y`), bottom, the first that fits.
pub open spec fn cube_face_uv(p: Vec3) -> Option<(int, int, int)> {
    let (x, y, z) = (p.x as int, p.y as int, p.z as int);
    let one = UV_ONE as int;
    if 0 < z < one && -z <= x <= z && -z <= y <= z {
        Some((0, half_ratio(x, z), half_ratio(y, z)))
    } else if -one < z < 0 && z <= x <= -z && z <= y <= -z {
        Some((1, half_ratio(-x, -z), half_ratio(y, -z)))
    } else if -one < x < 0 && x <= y <= -x && x <= z <= -x {
        Some((2, half_ratio(z, -x), half_ratio(y, -x)))
    } else if 0 < x < one && -x <= y <= x && -x <= z <= x {
        Some((3, half_ratio(-z, x), half_ratio(y, x)))
    } else if 0 < y < one && -y <= x <= y && -y <= z <= y {
        Some((4, half_ratio(-x, y), half_ratio(z, y)))
    } else if -one < y < 0 && y <= x <= -y && y <= z <= -y {
        Some((5, half_ratio(x, -y), half_ratio(z, -y)))
    } else {
        None
    }
}

fn half_ratio_exec(a: i64, m: i64) -> (r: i64)
    requires
        0 < m < UV_ONE,
        -m <= a <= m,
    ensures
        r == half_ratio(a as int, m as int),
        0 <= r <= UV_ONE,
{
    proof {
        assert(0 <= (a + m) * UV_ONE <= 2 * m * UV_ONE) by (nonlinear_arith) requires -m <= a <= m, m > 0;
        vstd::arithmetic::div_mod::lemma_div_is_ordered(((a + m) * UV_ONE) as int, 2 * m * UV_ONE, 2 * m);
        vstd::arithmetic::div_mod::lemma_div_multiples_vanish(UV_ONE as int, 2 * m);
        assert(2 * m * UV_ONE == UV_ONE * (2 * m)) by (nonlinear_arith);
        vstd::arithmetic::div_mod::lemma_div_pos_is_pos(((a + m) * UV_ONE) as int, 2 * m);
    }
    (a + m) * UV_ONE / (2 * m)
}

/// Where `p` looks up a cube map: the face and its texture coordinates.
pub fn cube_face(p: Vec3) -> (r: Option<(usize, i64, i64)>)
    ensures
        match (r, cube_face_uv(p)) {
            (Some(a), Some(b)) => a.0 as int == b.0 && a.1 as int == b.1 && a.2 as int == b.2 && a.0 < 6,
            (None, None) => true,
            _ => false,
        },
{
    let (x, y, z) = (p.x, p.y, p.z);
    let one = UV_ONE;
    if 0 < z && z < one && -z <= x && x <= z && -z <= y && y <= z {
        Some((0, half_ratio_exec(x, z), half_ratio_exec(y, z)))
    } else if -one < z && z < 0 && z <= x && x <= -z && z <= y && y <= -z {
        Some((1, half_ratio_exec(-x, -z), half_ratio_exec(y, -z)))
    } else if -one < x && x < 0 && x <= y && y <= -x && x <= z && z <= -x {
        Some((2, half_ratio_exec(z, -x), half_ratio_exec(y, -x)))
    } else if 0 < x && x < one && -x <= y && y <= x && -x <= z && z <= x {
        Some((3, half_ratio_exec(-z, x), half_ratio_exec(y, x)))
    } else if 0 < y && y < one && -y <= x && x <= y && -y <= z && z <= y {
        Some((4, half_ratio_exec(-x, y), half_ratio_exec(z, y)))
    } else if -one < y && y < 0 && y <= x && x <= -y && y <= z && z <= -y {
        Some((5, half_ratio_exec(x, -y), half_ratio_exec(z, -y)))
    } else {
        None
    }
}

/// The color of face `k` of `Cubemap::colored`.
pub open spec fn face_color(k: int) -> Rgba {
    if k == 0 {
        Rgba { r: 255, g: 0, b: 0, a: 0 }
    } else if k == 1 {
        Rgba { r: 0, g: 255, b: 0, a: 0 }
    } else if k == 2 {
        Rgba { r: 0, g: 0, b: 255, a: 0 }
    } else if k == 3 {
        Rgba { r: 255, g: 0, b: 255, a: 0 }
    } else if k == 4 {
        Rgba { r: 255, g: 255, b: 0, a: 0 }
    } else {
        Rgba { r: 0, g: 255, b: 255, a: 0 }
    }
}

/// Six textures on the faces of a cube, in the order front, back, left, right,
/// top, bottom.
#[derive(Debug)]
pub struct Cubemap {
    pub texture: Vec<Texture>,
}

/// A region of an image, as fractions of its size in units of `1 / FRAC_ONE`,
/// that `sub_img` can cut out and that is not empty.
pub open spec fn region_ok(img: PixImage, f: (u32, u32, u32, u32)) -> bool {
    &&& f.0 <= FRAC_ONE && f.1 <= FRAC_ONE && f.2 <= FRAC_ONE && f.3 <= FRAC_ONE
    &&& part(f.0 as int, img.width as int) + part(f.2 as int, img.width as int) <= img.width
    &&& part(f.1 as int, img.height as int) + part(f.3 as int, img.height as int) <= img.height
    &&& part(f.2 as int, img.width as int) >= 1
    &&& part(f.3 as int, img.height as int) >= 1
}

impl Cubemap {
    pub open spec fn wf(&self) -> bool {
        &&& self.texture@.len() == 6
        &&& forall|k: int| 0 <= k < 6 ==> #[trigger] self.texture@[k].wf()
    }

    /// The cube map whose faces are the regions `faces` (`(x, y, w, h)`, as
    /// fractions of the size of `image`) of one image, sampled bilinearly.
    pub fn new(image: &PixImage, faces: [(u32, u32, u32, u32); 6]) -> (r: Cubemap)
        requires
            image.wf(),
            forall|k: int| 0 <= k < 6 ==> region_ok(*image, #[trigger] faces[k]),
        ensures
            r.wf(),
            forall|k: int| 0 <= k < 6 ==> (#[trigger] r.texture@[k]).filter == Filter::Bilinear
                && is_sub_img(*image, faces[k], r.texture@[k].image),
    {
        let mut texture: Vec<Texture> = Vec::new();
        let mut k: usize = 0;
        while k < 6
            invariant
                image.wf(),
                forall|j: int| 0 <= j < 6 ==> region_ok(*image, #[trigger] faces[j]),
                k <= 6,
                texture@.len() == k,
                forall|j: int| 0 <= j < k ==> (#[trigger] texture@[j]).wf() && texture@[j].filter == Filter::Bilinear
                    && is_sub_img(*image, faces[j], texture@[j].image),
            decreases 6 - k,
        {
            let (x, y, w, h) = faces[k];
            proof {
                assert(region_ok(*image, faces[k as int]));
            }
            let sub = sub_img(image, x, y, w, h);
            texture.push(Texture::new(sub));
            k = k + 1;
        }
        Cubemap { texture }
    }

    /// A cube map with one plain color on each face: red, green, blue, magenta,
    /// yellow and cyan, all with alpha zero.
    pub fn colored() -> (r: Cubemap)
        ensures
            r.wf(),
            forall|k: int| 0 <= k < 6 ==> {
                &&& (#[trigger] r.texture@[k]).filter == Filter::Nearest
                &&& r.texture@[k].image.width == 1
                &&& r.texture@[k].image.height == 1
                &&& r.texture@[k].image.pixel(0, 0) == face_color(k)
            },
    {
        let mut texture: Vec<Texture> = Vec::new();
        let mut k: usize = 0;
        while k < 6
            invariant
                k <= 6,
                texture@.len() == k,
                forall|j: int| 0 <= j < k ==> {
                    &&& (#[trigger] texture@[j]).wf()
                    &&& texture@[j].filter == Filter::Nearest
                    &&& texture@[j].image.width == 1
                    &&& texture@[j].image.height == 1
                    &&& texture@[j].image.pixel(0, 0) == face_color(j)
                },
            decreases 6 - k,
        {
            let (r, g, b): (u8, u8, u8) = match k {
                0 => (255, 0, 0),
                1 => (0, 255, 0),
                2 => (0, 0, 255),
                3 => (255, 0, 255),
                4 => (255, 255, 0),
                _ => (0, 255, 255),
            };
            let data = vec![r, g, b, 0];
            let img = PixImage::from_data(data, 1, 1, ImageOriginPos::LeftTop);
            proof {
                assert(img.index_spec(0, 0) == 0);
                assert(img.pixel(0, 0) == face_color(k as int));
            }
            texture.push(Texture::neareat(img));
            k = k + 1;
        }
        Cubemap { texture }
    }

    /// The texture coordinates at which `point` looks up its face, or `(1, 1)`
    /// where it looks up none.
    pub fn get_uv(&self, point: Vec3) -> (r: (i64, i64))
        ensures
            match cube_face_uv(point) {
                Some(h) => r.0 == h.1 && r.1 == h.2,
                None => r == (UV_ONE, UV_ONE),
            },
    {
        match cube_face(point) {
            Some((_, u, v)) => (u, v),
            None => (UV_ONE, UV_ONE),
        }
    }

    /// The color that `point` looks up, or yellow where it looks up none.
    pub fn get(&self, point: Vec3) -> (r: Rgb)
        requires
            self.wf(),
        ensures
            match cube_face_uv(point) {
                Some(h) => r == filter_spec(self.texture@[h.0].image, self.texture@[h.0].filter, h.1, h.2),
                None => r == (Rgb { r: 255, g: 255, b: 0 }),
            },
    {
        match cube_face(point) {
            Some((f, u, v)) => {
                proof {
                    assert(self.texture@[f as int].wf());
                }
                self.texture[f].get(u, v)
            },
            None => Rgb { r: 255, g: 255, b: 0 },
        }
    }
}

} // verus!
