use vstd::prelude::*;
use vstd::arithmetic::div_mod::lemma_fundamental_div_mod_converse;

verus! {

/// Where row 0 of an image lies.
#[derive(Clone, Copy, Debug, PartialEq, Eq, Structural)]
pub enum ImageOriginPos {
    LeftTop,
    LeftBottom,
}

/// An 8-bit RGBA color; `a == 255` is opaque, `a == 0` fully transparent.
#[derive(Clone, Copy, Debug, PartialEq, Eq, Structural)]
pub struct Rgba {
    pub r: u8,
    pub g: u8,
    pub b: u8,
    pub a: u8,
}

/// An 8-bit RGB color.
#[derive(Clone, Copy, Debug, PartialEq, Eq, Structural)]
pub struct Rgb {
    pub r: u8,
    pub g: u8,
    pub b: u8,
}

/// An RGBA image, four bytes per pixel, rows stored one after the other.
#[derive(Debug)]
pub struct PixImage {
    pub width: u32,
    pub height: u32,
    pub data: Vec<u8>,
    pub origin: ImageOriginPos,
}

/// Position of pixel `(x, y)` in the row-major pixel array; `y` counts from the
/// bottom row when the origin is at the bottom.
pub open spec fn pixel_index(w: int, h: int, origin: ImageOriginPos, x: int, y: int) -> int {
    match origin {
        ImageOriginPos::LeftBottom => (h - 1 - y) * w + x,
        ImageOriginPos::LeftTop => y * w + x,
    }
}

pub open spec fn rgba_at(data: Seq<u8>, i: int) -> Rgba {
    Rgba { r: data[4 * i], g: data[4 * i + 1], b: data[4 * i + 2], a: data[4 * i + 3] }
}

/// One channel of `src` composited over `dst`, both with straight alpha.
pub open spec fn blend_channel_spec(cs: int, cd: int, sa: int, da: int) -> int {
    let den = sa * 255 + da * (255 - sa);
    if den == 0 {
        0
    } else {
        (cs * sa * 255 + cd * da * (255 - sa)) / den
    }
}

/// `src` composited over `dst`:
/// `out.rgb = (src.rgb * src.a + dst.rgb * dst.a * (1 - src.a)) / out.a`,
/// `out.a = src.a + dst.a * (1 - src.a)`, with alpha in units of 1/255, rounded down.
pub open spec fn blend_spec(src: Rgba, dst: Rgba) -> Rgba {
    Rgba {
        r: blend_channel_spec(src.r as int, dst.r as int, src.a as int, dst.a as int) as u8,
        g: blend_channel_spec(src.g as int, dst.g as int, src.a as int, dst.a as int) as u8,
        b: blend_channel_spec(src.b as int, dst.b as int, src.a as int, dst.a as int) as u8,
        a: (src.a + (dst.a * (255 - src.a)) / 255) as u8,
    }
}

pub open spec fn opaque(c: Rgb) -> Rgba {
    Rgba { r: c.r, g: c.g, b: c.b, a: 255 }
}

pub proof fn lemma_index_bounds(w: int, h: int, origin: ImageOriginPos, x: int, y: int)
    requires
        0 <= x < w,
        0 <= y < h,
    ensures
        0 <= pixel_index(w, h, origin, x, y) < w * h,
        pixel_index(w, h, origin, x, y) / w == (match origin {
            ImageOriginPos::LeftBottom => h - 1 - y,
            ImageOriginPos::LeftTop => y,
        }),
        pixel_index(w, h, origin, x, y) % w == x,
{
    let row = match origin {
        ImageOriginPos::LeftBottom => h - 1 - y,
        ImageOriginPos::LeftTop => y,
    };
    assert(0 <= row < h);
    assert(0 <= row * w + x < w * h) by (nonlinear_arith)
        requires 0 <= row < h, 0 <= x < w;
    lemma_fundamental_div_mod_converse(row * w + x, w, row, x);
    assert(row * w + x == pixel_index(w, h, origin, x, y));
}

/// Distinct pixels have distinct positions.
pub proof fn lemma_index_injective(w: int, h: int, origin: ImageOriginPos, x: int, y: int, x2: int, y2: int)
    requires
        0 <= x < w,
        0 <= y < h,
        0 <= x2 < w,
        0 <= y2 < h,
        x != x2 || y != y2,
    ensures
        pixel_index(w, h, origin, x, y) != pixel_index(w, h, origin, x2, y2),
{
    lemma_index_bounds(w, h, origin, x, y);
    lemma_index_bounds(w, h, origin, x2, y2);
}

impl PixImage {
    pub open spec fn wf(&self) -> bool {
        &&& self.data@.len() == 4 * self.width * self.height
        &&& 4 * self.width * self.height <= u32::MAX
    }

    pub open spec fn index_spec(&self, x: int, y: int) -> int {
        pixel_index(self.width as int, self.height as int, self.origin, x, y)
    }

    /// The color of pixel `(x, y)`.
    pub open spec fn pixel(&self, x: int, y: int) -> Rgba {
        rgba_at(self.data@, self.index_spec(x, y))
    }

    pub open spec fn in_bounds(&self, x: int, y: int) -> bool {
        0 <= x < self.width && 0 <= y < self.height
    }

    /// A black, fully transparent image with its origin at the bottom left.
    pub fn new(width: u32, height: u32) -> (r: PixImage)
        requires
            4 * width * height <= u32::MAX,
        ensures
            r.wf(),
            r.width == width,
            r.height == height,
            r.origin == ImageOriginPos::LeftBottom,
            forall|i: int| 0 <= i < r.data@.len() ==> r.data@[i] == 0,
    {
        proof {
            assert(0 <= width * height <= 4 * width * height) by (nonlinear_arith);
            assert(4 * (width * height) == 4 * width * height) by (nonlinear_arith);
        }
        let wh: u32 = width * height;
        let n: u32 = 4 * wh;
        let data: Vec<u8> = vec![0u8; n as usize];
        PixImage { width, height, data, origin: ImageOriginPos::LeftBottom }
    }

    /// An image over `data`, four bytes per pixel.
    pub fn from_data(data: Vec<u8>, width: u32, height: u32, origin: ImageOriginPos) -> (r: PixImage)
        requires
            data@.len() == 4 * width * height,
            4 * width * height <= u32::MAX,
        ensures
            r.wf(),
            r.data@ == data@,
            r.width == width,
            r.height == height,
            r.origin == origin,
    {
        PixImage { width, height, data, origin }
    }

    pub fn width(&self) -> (r: u32)
        ensures
            r == self.width,
    {
        self.width
    }

    pub fn height(&self) -> (r: u32)
        ensures
            r == self.height,
    {
        self.height
    }

    pub fn image_origin(&self) -> (r: ImageOriginPos)
        ensures
            r == self.origin,
    {
        self.origin
    }

    /// Position of pixel `(x, y)` in the pixel array.
    pub fn index(&self, x: u32, y: u32) -> (r: usize)
        requires
            self.wf(),
            self.in_bounds(x as int, y as int),
        ensures
            r == self.index_spec(x as int, y as int),
            4 * r + 3 < self.data@.len(),
    {
        proof {
            lemma_index_bounds(self.width as int, self.height as int, self.origin, x as int, y as int);
            assert(self.index_spec(x as int, y as int) + 1 <= self.width * self.height);
        }
        let w = self.width as usize;
        let h = self.height as usize;
        let x = x as usize;
        let y = y as usize;
        let row: usize = match self.origin {
            ImageOriginPos::LeftBottom => h - 1 - y,
            ImageOriginPos::LeftTop => y,
        };
        proof {
            assert(row * w <= row * w + x < w * h) by (nonlinear_arith)
                requires row < h, x < w;
            assert(w * h <= u32::MAX) by (nonlinear_arith)
                requires 4 * w * h <= u32::MAX;
            assert(4 * (row * w + x) + 3 < 4 * w * h) by (nonlinear_arith)
                requires row * w + x < w * h;
        }
        row * w + x
    }

    pub fn get_rgba(&self, x: u32, y: u32) -> (r: Rgba)
        requires
            self.wf(),
            self.in_bounds(x as int, y as int),
        ensures
            r == self.pixel(x as int, y as int),
    {
        let i = 4 * self.index(x, y);
        Rgba { r: self.data[i], g: self.data[i + 1], b: self.data[i + 2], a: self.data[i + 3] }
    }

    pub fn get(&self, x: u32, y: u32) -> (r: Rgb)
        requires
            self.wf(),
            self.in_bounds(x as int, y as int),
        ensures
            r.r == self.pixel(x as int, y as int).r,
            r.g == self.pixel(x as int, y as int).g,
            r.b == self.pixel(x as int, y as int).b,
    {
        let c = self.get_rgba(x, y);
        Rgb { r: c.r, g: c.g, b: c.b }
    }

    /// Sets pixel `(x, y)` to `color`; a pixel outside the image is ignored.
    pub fn set_rgba32(&mut self, x: u32, y: u32, color: Rgba)
        requires
            old(self).wf(),
        ensures
            final(self).wf(),
            final(self).width == old(self).width,
            final(self).height == old(self).height,
            final(self).origin == old(self).origin,
            forall|x2: int, y2: int|
                #![trigger final(self).pixel(x2, y2)]
                final(self).in_bounds(x2, y2) ==> final(self).pixel(x2, y2) == (if x2 == x && y2 == y {
                    color
                } else {
                    old(self).pixel(x2, y2)
                }),
    {
        if x >= self.width || y >= self.height {
            return;
        }
        let i = 4 * self.index(x, y);
        self.data.set(i, color.r);
        self.data.set(i + 1, color.g);
        self.data.set(i + 2, color.b);
        self.data.set(i + 3, color.a);
        proof {
            assert forall|x2: int, y2: int|
                #![trigger self.pixel(x2, y2)]
                self.in_bounds(x2, y2) implies self.pixel(x2, y2) == (if x2 == x && y2 == y {
                    color
                } else {
                    old(self).pixel(x2, y2)
                }) by {
                lemma_index_bounds(self.width as int, self.height as int, self.origin, x2, y2);
                let j = self.index_spec(x2, y2);
                assert(4 * j + 3 < self.data@.len()) by (nonlinear_arith)
                    requires j < self.width * self.height, self.data@.len() == 4 * self.width * self.height;
                if x2 != x || y2 != y {
                    lemma_index_injective(self.width as int, self.height as int, self.origin,
                        x as int, y as int, x2, y2);
                    assert(self.data@[4 * j] == old(self).data@[4 * j]);
                    assert(self.data@[4 * j + 1] == old(self).data@[4 * j + 1]);
                    assert(self.data@[4 * j + 2] == old(self).data@[4 * j + 2]);
                    assert(self.data@[4 * j + 3] == old(self).data@[4 * j + 3]);
                } else {
                    assert(4 * j == i);
                }
            }
        }
    }

    /// Sets pixel `(x, y)` to the opaque `color`.
    pub fn set_rgb24(&mut self, x: u32, y: u32, color: Rgb)
        requires
            old(self).wf(),
        ensures
            final(self).wf(),
            final(self).width == old(self).width,
            final(self).height == old(self).height,
            final(self).origin == old(self).origin,
            forall|x2: int, y2: int|
                #![trigger final(self).pixel(x2, y2)]
                final(self).in_bounds(x2, y2) ==> final(self).pixel(x2, y2) == (if x2 == x && y2 == y {
                    opaque(color)
                } else {
                    old(self).pixel(x2, y2)
                }),
    {
        self.set_rgba32(x, y, Rgba { r: color.r, g: color.g, b: color.b, a: 255 });
    }

    /// Composites `color` over pixel `(x, y)`.
    pub fn blending(&mut self, x: u32, y: u32, color: Rgba)
        requires
            old(self).wf(),
            old(self).in_bounds(x as int, y as int),
        ensures
            final(self).wf(),
            final(self).width == old(self).width,
            final(self).height == old(self).height,
            final(self).origin == old(self).origin,
            forall|x2: int, y2: int|
                #![trigger final(self).pixel(x2, y2)]
                final(self).in_bounds(x2, y2) ==> final(self).pixel(x2, y2) == (if x2 == x && y2 == y {
                    blend_spec(color, old(self).pixel(x as int, y as int))
                } else {
                    old(self).pixel(x2, y2)
                }),
    {
        let dst = self.get_rgba(x, y);
        let out = blend(color, dst);
        self.set_rgba32(x, y, out);
    }

    /// The same picture stored with its rows in the opposite order, origin at the
    /// bottom left: pixel `(c, r)` of the result is pixel `(c, height - 1 - r)` of `self`.
    pub fn flip_y(&self) -> (r: PixImage)
        requires
            self.wf(),
        ensures
            r.wf(),
            r.width == self.width,
            r.height == self.height,
            r.origin == ImageOriginPos::LeftBottom,
            forall|c: int, row: int|
                #![trigger r.pixel(c, row)]
                r.in_bounds(c, row) ==> r.pixel(c, row) == self.pixel(c, self.height - 1 - row),
    {
        let mut img = PixImage::new(self.width, self.height);
        let mut row: u32 = 0;
        while row < img.height
            invariant
                self.wf(),
                img.wf(),
                img.width == self.width,
                img.height == self.height,
                img.origin == ImageOriginPos::LeftBottom,
                row <= img.height,
                forall|c: int, r2: int|
                    #![trigger img.pixel(c, r2)]
                    img.in_bounds(c, r2) && img.height - 1 - r2 < row
                        ==> img.pixel(c, r2) == self.pixel(c, img.height - 1 - r2),
            decreases img.height - row,
        {
            let mut col: u32 = 0;
            while col < img.width
                invariant
                    self.wf(),
                    img.wf(),
                    img.width == self.width,
                    img.height == self.height,
                    img.origin == ImageOriginPos::LeftBottom,
                    row < img.height,
                    col <= img.width,
                    forall|c: int, r2: int|
                        #![trigger img.pixel(c, r2)]
                        img.in_bounds(c, r2) && (img.height - 1 - r2 < row || (img.height - 1 - r2 == row && c < col))
                            ==> img.pixel(c, r2) == self.pixel(c, img.height - 1 - r2),
                decreases img.width - col,
            {
                let color = self.get_rgba(col, row);
                let h = img.height;
                img.set_rgba32(col, h - row - 1, color);
                col = col + 1;
            }
            row = row + 1;
        }
        img
    }
}

fn blend_channel(cs: u8, cd: u8, sa: u8, da: u8) -> (r: u8)
    ensures
        r == blend_channel_spec(cs as int, cd as int, sa as int, da as int),
{
    let cs = cs as u32;
    let cd = cd as u32;
    let sa = sa as u32;
    let da = da as u32;
    proof {
        assert(da * (255 - sa) <= 255 * 255) by (nonlinear_arith)
            requires da <= 255, sa <= 255;
        assert(cs * sa * 255 <= 255 * 255 * 255) by (nonlinear_arith)
            requires cs <= 255, sa <= 255;
        assert(cd * da <= 255 * 255) by (nonlinear_arith)
            requires cd <= 255, da <= 255;
        assert(cd * da * (255 - sa) <= 255 * 255 * 255) by (nonlinear_arith)
            requires cd <= 255, da <= 255, sa <= 255;
    }
    let den: u32 = sa * 255 + da * (255 - sa);
    if den == 0 {
        0
    } else {
        let num: u32 = cs * sa * 255 + cd * da * (255 - sa);
        proof {
            assert(num <= 255 * den) by (nonlinear_arith)
                requires num == cs * sa * 255 + cd * da * (255 - sa), den == sa * 255 + da * (255 - sa),
                    cs <= 255, cd <= 255, sa <= 255;
            vstd::arithmetic::div_mod::lemma_div_is_ordered(num as int, 255 * den as int, den as int);
            vstd::arithmetic::div_mod::lemma_div_multiples_vanish(255, den as int);
        }
        (num / den) as u8
    }
}

/// `src` composited over `dst`.
pub fn blend(src: Rgba, dst: Rgba) -> (r: Rgba)
    ensures
        r == blend_spec(src, dst),
{
    let sa = src.a as u32;
    let da = dst.a as u32;
    proof {
        assert(da * (255 - sa) <= 255 * (255 - sa)) by (nonlinear_arith)
            requires da <= 255, sa <= 255;
        vstd::arithmetic::div_mod::lemma_div_is_ordered((da * (255 - sa)) as int, 255 * (255 - sa), 255);
        vstd::arithmetic::div_mod::lemma_div_multiples_vanish(255 - sa, 255);
    }
    let a: u32 = sa + (da * (255 - sa)) / 255;
    Rgba {
        r: blend_channel(src.r, dst.r, src.a, dst.a),
        g: blend_channel(src.g, dst.g, src.a, dst.a),
        b: blend_channel(src.b, dst.b, src.a, dst.a),
        a: a as u8,
    }
}

} // verus!
