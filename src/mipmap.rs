use vstd::prelude::*;
use vstd::arithmetic::power2::{pow2, lemma_pow2_unfold, lemma_pow2_pos};
use crate::image::{opaque, ImageOriginPos, PixImage, Rgb, Rgba};
use crate::texture::{bilinear, bilinear_spec, lerp_rgb, rgb_of, sampleable, Texture, UV_ONE};
use crate::util::{floor_div, isqrt, isqrt_spec, log2_fixed, log2_fixed_spec, FRAC_ONE};
use crate::raster::{abs, clamp_i64, ATTR_LIMIT};

verus! {

/// Half a length, rounded up.
pub open spec fn half_up(n: int) -> int {
    (n + 1) / 2
}

/// The average of four colors, channel by channel, rounded down, opaque.
pub open spec fn average4(a: Rgba, b: Rgba, c: Rgba, d: Rgba) -> Rgb {
    Rgb {
        r: ((a.r + b.r + c.r + d.r) / 4) as u8,
        g: ((a.g + b.g + c.g + d.g) / 4) as u8,
        b: ((a.b + b.b + c.b + d.b) / 4) as u8,
    }
}

/// Pixel `(c, r)` of the next level: the average of the 2 by 2 block at
/// `(2c, 2r)`, where a block at an odd edge repeats its last row or column.
pub open spec fn quarter_pixel(img: PixImage, c: int, r: int) -> Rgb {
    let x0 = 2 * c;
    let y0 = 2 * r;
    let x1 = if 2 * c + 1 < img.width { 2 * c + 1 } else { img.width - 1 };
    let y1 = if 2 * r + 1 < img.height { 2 * r + 1 } else { img.height - 1 };
    average4(img.pixel(x0, y0), img.pixel(x1, y0), img.pixel(x0, y1), img.pixel(x1, y1))
}

/// `next` is the level that follows `img` in a mipmap chain.
#[verifier::opaque]
pub open spec fn is_quarter(img: PixImage, next: PixImage) -> bool {
    &&& next.wf()
    &&& next.width == half_up(img.width as int)
    &&& next.height == half_up(img.height as int)
    &&& forall|c: int, r: int| #![trigger next.pixel(c, r)]
        next.in_bounds(c, r) ==> next.pixel(c, r) == opaque(quarter_pixel(img, c, r))
}

fn sum4(a: u8, b: u8, c: u8, d: u8) -> (r: u8)
    ensures
        r == (a + b + c + d) / 4,
{
    ((a as u32 + b as u32 + c as u32 + d as u32) / 4) as u8
}

/// The next, half-size level of a mipmap chain: each pixel the box-filtered
/// average of a 2 by 2 block.
pub fn quarter(img: &PixImage) -> (r: PixImage)
    requires
        sampleable(*img),
    ensures
        is_quarter(*img, r),
        r.wf(),
        r.width == half_up(img.width as int),
        r.height == half_up(img.height as int),
        r.origin == ImageOriginPos::LeftBottom,
{
    let w = img.width;
    let h = img.height;
    let qw = w / 2 + w % 2;
    let qh = h / 2 + h % 2;
    proof {
        assert(qw <= w && qh <= h);
        assert(4 * qw * qh <= 4 * w * h) by (nonlinear_arith) requires qw <= w, qh <= h;
    }
    let mut out = PixImage::new(qw, qh);
    let mut r: u32 = 0;
    while r < qh
        invariant
            sampleable(*img),
            w == img.width,
            h == img.height,
            qw == half_up(w as int),
            qh == half_up(h as int),
            out.wf(),
            out.width == qw,
            out.height == qh,
            out.origin == ImageOriginPos::LeftBottom,
            r <= qh,
            forall|c2: int, r2: int| #![trigger out.pixel(c2, r2)]
                out.in_bounds(c2, r2) && r2 < r ==> out.pixel(c2, r2) == opaque(quarter_pixel(*img, c2, r2)),
        decreases qh - r,
    {
        let mut c: u32 = 0;
        while c < qw
            invariant
                sampleable(*img),
                w == img.width,
                h == img.height,
                qw == half_up(w as int),
                qh == half_up(h as int),
                out.wf(),
                out.width == qw,
                out.height == qh,
                out.origin == ImageOriginPos::LeftBottom,
                r < qh,
                c <= qw,
                forall|c2: int, r2: int| #![trigger out.pixel(c2, r2)]
                    out.in_bounds(c2, r2) && (r2 < r || (r2 == r && c2 < c))
                        ==> out.pixel(c2, r2) == opaque(quarter_pixel(*img, c2, r2)),
            decreases qw - c,
        {
            let x0 = 2 * c;
            let y0 = 2 * r;
            let x1 = if 2 * c + 1 < w { 2 * c + 1 } else { w - 1 };
            let y1 = if 2 * r + 1 < h { 2 * r + 1 } else { h - 1 };
            let p00 = img.get_rgba(x0, y0);
            let p10 = img.get_rgba(x1, y0);
            let p01 = img.get_rgba(x0, y1);
            let p11 = img.get_rgba(x1, y1);
            let color = Rgb {
                r: sum4(p00.r, p10.r, p01.r, p11.r),
                g: sum4(p00.g, p10.g, p01.g, p11.g),
                b: sum4(p00.b, p10.b, p01.b, p11.b),
            };
            out.set_rgb24(c, r, color);
            c = c + 1;
        }
        r = r + 1;
    }
    proof {
        reveal(is_quarter);
    }
    out
}

/// Number of levels of a chain that starts at `w` by `h`: halving, rounded up,
/// down to 1 by 1.
pub open spec fn level_count(w: nat, h: nat) -> nat
    decreases w + h,
{
    if w <= 1 && h <= 1 {
        1
    } else {
        1 + level_count(((w + 1) / 2) as nat, ((h + 1) / 2) as nat)
    }
}

proof fn lemma_level_count_bound(w: nat, h: nat)
    requires
        w >= 1,
        h >= 1,
    ensures
        1 <= level_count(w, h) <= w + h,
    decreases w + h,
{
    if !(w <= 1 && h <= 1) {
        lemma_level_count_bound(((w + 1) / 2) as nat, ((h + 1) / 2) as nat);
    }
}

/// `k` is the base-2 logarithm of `n`, rounded up.
pub open spec fn is_ceil_log2(n: nat, k: nat) -> bool {
    pow2(k) >= n && (k == 0 || pow2((k - 1) as nat) < n)
}

pub open spec fn max_nat(a: nat, b: nat) -> nat {
    if a >= b { a } else { b }
}

/// A chain of images, each the quarter of the one before, down to 1 by 1.
#[derive(Debug)]
pub struct Mipmap {
    pub images: Vec<Texture>,
}

impl Mipmap {
    pub open spec fn wf(&self) -> bool {
        &&& self.images@.len() >= 1
        &&& forall|k: int| 0 <= k < self.images@.len() ==> #[trigger] self.images@[k].wf()
        &&& forall|k: int| 0 <= k < self.images@.len() - 1
            ==> is_quarter(#[trigger] self.images@[k].image, self.images@[k + 1].image)
        &&& self.images@.last().image.width == 1
        &&& self.images@.last().image.height == 1
        &&& self.images@.len() == level_count(self.images@[0].image.width as nat, self.images@[0].image.height as nat)
    }

    /// The chain that starts at `img`, every level sampled bilinearly.
    #[verifier::rlimit(60)]
    pub fn new(img: PixImage) -> (r: Mipmap)
        requires
            sampleable(img),
        ensures
            r.wf(),
            r.images@[0].image == img,
            r.images@.len() == level_count(img.width as nat, img.height as nat),
    {
        let ghost w0 = img.width as nat;
        let ghost h0 = img.height as nat;
        proof {
            lemma_level_count_bound(w0, h0);
        }
        let mut images: Vec<Texture> = Vec::new();
        images.push(Texture::new(img));
        let mut k: usize = 0;
        while images[k].image.width > 1 || images[k].image.height > 1
            invariant
                images@.len() == k + 1,
                images@[0].image == img,
                forall|j: int| 0 <= j < images@.len() ==> #[trigger] images@[j].wf(),
                forall|j: int| 0 <= j < images@.len() - 1
                    ==> is_quarter(#[trigger] images@[j].image, images@[j + 1].image),
                level_count(w0, h0) == k + level_count(
                    images@[k as int].image.width as nat, images@[k as int].image.height as nat),
                w0 == img.width,
                h0 == img.height,
                level_count(w0, h0) <= w0 + h0,
                w0 >= 1,
                h0 >= 1,
                4 * w0 * h0 <= u32::MAX,
            decreases images@[k as int].image.width + images@[k as int].image.height,
        {
            proof {
                assert(images@[k as int].wf());
                lemma_level_count_bound(images@[k as int].image.width as nat, images@[k as int].image.height as nat);
                assert(w0 + h0 <= u32::MAX) by (nonlinear_arith)
                    requires 4 * w0 * h0 <= u32::MAX, w0 >= 1, h0 >= 1;
            }
            let next = quarter(&images[k].image);
            let ghost prev = images@;
            let t = Texture::new(next);
            proof {
                assert(t.wf());
            }
            images.push(t);
            proof {
                assert(images@[k + 1] == t);
                assert forall|j: int| 0 <= j < images@.len() implies #[trigger] images@[j].wf() by {
                    if j <= k {
                        assert(images@[j] == prev[j]);
                    }
                }
                assert forall|j: int| 0 <= j < images@.len() - 1
                    implies is_quarter(#[trigger] images@[j].image, images@[j + 1].image) by {
                    if j < k {
                        assert(images@[j] == prev[j]);
                        assert(images@[j + 1] == prev[j + 1]);
                    }
                }
            }
            k = k + 1;
        }
        proof {
            assert(images@[k as int].wf());
            assert(images@.last() == images@[k as int]);
        }
        Mipmap { images }
    }

    /// The chain's color at `(u, v)` at the fractional level `level / FRAC_ONE`:
    /// the levels below and above it, sampled bilinearly and blended by its
    /// fraction. A level past the last is the last.
    #[verifier::rlimit(60)]
    pub fn get_by_level(&self, level: u64, u: i64, v: i64) -> (r: Rgb)
        requires
            self.wf(),
        ensures
            r == level_spec(self.images@, level as int, u as int, v as int),
    {
        proof {
            reveal(level_spec);
        }
        let n = self.images.len();
        let lo = level / (FRAC_ONE as u64);
        let frac = level % (FRAC_ONE as u64);
        if lo >= (n - 1) as u64 {
            let top = &self.images[n - 1].image;
            proof {
                assert(self.images@[n - 1].wf());
            }
            bilinear(top, u, v)
        } else {
            let a = &self.images[lo as usize].image;
            let b = &self.images[lo as usize + 1].image;
            proof {
                assert(self.images@[lo as int].wf());
                assert(self.images@[lo + 1].wf());
            }
            let c1 = bilinear(a, u, v);
            let c2 = bilinear(b, u, v);
            crate::texture::lerp_color(frac as u32, c1, c2)
        }
    }
}

/// Color of a chain of `levels` at fractional level `level / FRAC_ONE`.
#[verifier::opaque]
pub open spec fn level_spec(levels: Seq<Texture>, level: int, u: int, v: int) -> Rgb {
    let lo = level / (FRAC_ONE as int);
    let frac = level % (FRAC_ONE as int);
    if lo >= levels.len() - 1 {
        bilinear_spec(levels.last().image, u, v)
    } else {
        lerp_rgb(frac, bilinear_spec(levels[lo].image, u, v), bilinear_spec(levels[lo + 1].image, u, v))
    }
}

proof fn lemma_level_count_log2(w: nat, h: nat)
    ensures
        is_ceil_log2(max_nat(w, h), (level_count(w, h) - 1) as nat),
    decreases w + h,
{
    if w <= 1 && h <= 1 {
        assert(pow2(0) == 1) by { vstd::arithmetic::power2::lemma2_to64(); }
    } else {
        let hw = ((w + 1) / 2) as nat;
        let hh = ((h + 1) / 2) as nat;
        lemma_level_count_log2(hw, hh);
        let m = max_nat(w, h);
        assert(max_nat(hw, hh) == (m + 1) / 2);
        let k = (level_count(hw, hh) - 1) as nat;
        assert(level_count(w, h) - 1 == k + 1);
        lemma_pow2_unfold(k + 1);
        assert(pow2(k + 1) >= m);
        if k == 0 {
            assert(pow2(0) == 1) by { vstd::arithmetic::power2::lemma2_to64(); }
        } else {
            lemma_pow2_unfold(k);
        }
    }
}

/// Every level of a mipmap is the one before halved, rounded up, down to 1 by 1,
/// and a chain that starts at `w` by `h` has `ceil(log2(max(w, h))) + 1` levels.
pub proof fn lemma_mipmap_pyramid(m: Mipmap)
    requires
        m.wf(),
    ensures
        forall|k: int| 0 <= k < m.images@.len() - 1 ==> {
            &&& (#[trigger] m.images@[k + 1]).image.width == half_up(m.images@[k].image.width as int)
            &&& m.images@[k + 1].image.height == half_up(m.images@[k].image.height as int)
        },
        m.images@.last().image.width == 1,
        m.images@.last().image.height == 1,
        is_ceil_log2(
            max_nat(m.images@[0].image.width as nat, m.images@[0].image.height as nat),
            (m.images@.len() - 1) as nat),
{
    reveal(is_quarter);
    assert forall|k: int| 0 <= k < m.images@.len() - 1 implies {
        &&& (#[trigger] m.images@[k + 1]).image.width == half_up(m.images@[k].image.width as int)
        &&& m.images@[k + 1].image.height == half_up(m.images@[k].image.height as int)
    } by {
        assert(is_quarter(m.images@[k].image, m.images@[k + 1].image));
    }
    lemma_level_count_log2(m.images@[0].image.width as nat, m.images@[0].image.height as nat);
}

/// A texture coordinate pair within the attribute range.
pub open spec fn uv_ok(p: (i64, i64)) -> bool {
    abs(p.0 as int) <= ATTR_LIMIT && abs(p.1 as int) <= ATTR_LIMIT
}

/// Length of the texture-space step `(du, dv)` on a `w` by `h` texture, in texels
/// (units of `1 / UV_ONE`), rounded down.
#[verifier::opaque]
pub open spec fn uv_length(du: int, dv: int, w: int, h: int) -> nat {
    isqrt_spec(((du * w) * (du * w) + (dv * h) * (dv * h)) as nat)
}

fn uv_len(du: i64, dv: i64, w: u32, h: u32) -> (r: u64)
    requires
        abs(du as int) <= 2 * ATTR_LIMIT,
        abs(dv as int) <= 2 * ATTR_LIMIT,
        w <= 0x4000_0000,
        h <= 0x4000_0000,
    ensures
        r == uv_length(du as int, dv as int, w as int, h as int),
{
    proof {
        reveal(uv_length);
        crate::raster::lemma_mul_abs(du as int, w as int, 2 * ATTR_LIMIT, 0x4000_0000);
        crate::raster::lemma_mul_abs(dv as int, h as int, 2 * ATTR_LIMIT, 0x4000_0000);
    }
    let x: i128 = du as i128 * w as i128;
    let y: i128 = dv as i128 * h as i128;
    proof {
        let l: int = 0x8_0000_0000_0000;
        assert(abs(x as int) <= l);
        assert(abs(y as int) <= l);
        crate::raster::lemma_mul_abs(x as int, x as int, l, l);
        crate::raster::lemma_mul_abs(y as int, y as int, l, l);
        assert(0 <= x * x) by (nonlinear_arith);
        assert(0 <= y * y) by (nonlinear_arith);
    }
    let n: i128 = x * x + y * y;
    isqrt(n as u128)
}

/// The fractional mip level, in units of `1 / FRAC_ONE`, for a sample at `uv`
/// whose neighbours above and to the right sample at `top` and `right`: the base-2
/// logarithm of the longer of the two steps, in texels of a `w` by `h` texture.
pub open spec fn mip_level_spec(uv: (i64, i64), top: (i64, i64), right: (i64, i64), w: int, h: int) -> nat {
    let l1 = uv_length(top.0 - uv.0, top.1 - uv.1, w, h);
    let l2 = uv_length(right.0 - uv.0, right.1 - uv.1, w, h);
    log2_fixed_spec(if l1 >= l2 { l1 } else { l2 })
}

/// Number of samples, their level, and the path they lie on for the footprint with
/// texture-space corners `a`, `b`, `c`, `d` (in order round it): of the two
/// vectors joining opposite edges' midpoints, the longer is the path and the
/// shorter the footprint's width, which gives the level; the ratio of their
/// lengths, at most 16, gives the count. As `(level, count, start, dir)`.
pub open spec fn aniso_plan(a: (i64, i64), b: (i64, i64), c: (i64, i64), d: (i64, i64), w: int, h: int)
    -> (nat, nat, (int, int), (int, int))
{
    let mid_ab = ((a.0 + b.0) / 2, (a.1 + b.1) / 2);
    let mid_bc = ((b.0 + c.0) / 2, (b.1 + c.1) / 2);
    let mid_cd = ((c.0 + d.0) / 2, (c.1 + d.1) / 2);
    let mid_da = ((d.0 + a.0) / 2, (d.1 + a.1) / 2);
    let ab_cd = (mid_cd.0 - mid_ab.0, mid_cd.1 - mid_ab.1);
    let bc_da = (mid_da.0 - mid_bc.0, mid_da.1 - mid_bc.1);
    let len_ab_cd = uv_length(ab_cd.0, ab_cd.1, w, h);
    let len_bc_da = uv_length(bc_da.0, bc_da.1, w, h);
    let (shorter, longer, dir, start) = if len_ab_cd > len_bc_da {
        (len_bc_da, len_ab_cd, ab_cd, mid_ab)
    } else {
        (len_ab_cd, len_bc_da, bc_da, mid_bc)
    };
    let count: nat = if shorter == 0 || longer / shorter >= 16 { 16 } else { longer / shorter };
    (log2_fixed_spec(shorter), count, start, dir)
}

/// Sample `i` of `count` along the path from `start` by `dir`: the middle of its
/// share.
pub open spec fn aniso_sample(start: (int, int), dir: (int, int), count: nat, i: int) -> (i64, i64) {
    (
        clamp_i64(start.0 + (dir.0 * (2 * i + 1)) / (2 * count as int)),
        clamp_i64(start.1 + (dir.1 * (2 * i + 1)) / (2 * count as int)),
    )
}

/// Channel sums of the first `k` samples along the path, at `level`.
pub open spec fn aniso_sum(levels: Seq<Texture>, level: nat, start: (int, int), dir: (int, int),
    count: nat, k: int) -> (int, int, int)
    decreases k,
{
    if k <= 0 {
        (0, 0, 0)
    } else {
        let prev = aniso_sum(levels, level, start, dir, count, k - 1);
        let p = aniso_sample(start, dir, count, k - 1);
        let c = level_spec(levels, level as int, p.0 as int, p.1 as int);
        (prev.0 + c.r, prev.1 + c.g, prev.2 + c.b)
    }
}

/// The anisotropically filtered color of the footprint with corners `a`, `b`,
/// `c`, `d`: the average of the samples along its longer axis, or, where it is no
/// longer than wide, the sample at `a`.
pub open spec fn aniso_spec(levels: Seq<Texture>, a: (i64, i64), b: (i64, i64), c: (i64, i64), d: (i64, i64),
    w: int, h: int) -> Rgb
{
    let (level, count, start, dir) = aniso_plan(a, b, c, d, w, h);
    if count <= 1 {
        level_spec(levels, level as int, a.0 as int, a.1 as int)
    } else {
        let s = aniso_sum(levels, level, start, dir, count, count as int);
        Rgb { r: (s.0 / count as int) as u8, g: (s.1 / count as int) as u8, b: (s.2 / count as int) as u8 }
    }
}

proof fn lemma_div_shrinks(n: int, d: int)
    requires
        d >= 1,
    ensures
        abs(n / d) <= abs(n),
{
    vstd::arithmetic::div_mod::lemma_fundamental_div_mod(n, d);
    let q = n / d;
    let r = n % d;
    assert(abs(q) <= abs(n)) by (nonlinear_arith)
        requires n == d * q + r, 0 <= r < d, d >= 1;
}

fn mid(a: i64, b: i64) -> (r: i64)
    requires
        abs(a as int) <= ATTR_LIMIT,
        abs(b as int) <= ATTR_LIMIT,
    ensures
        r == (a + b) / 2,
        abs(r as int) <= ATTR_LIMIT,
{
    floor_div(a as i128 + b as i128, 2) as i64
}

pub(crate) fn clamp_to_i64(v: i128) -> (r: i64)
    ensures
        r == clamp_i64(v as int),
{
    if v < i64::MIN as i128 {
        i64::MIN
    } else if v > i64::MAX as i128 {
        i64::MAX
    } else {
        v as i64
    }
}

impl Mipmap {
    proof fn lemma_dims(&self)
        requires
            self.wf(),
        ensures
            self.images@[0].image.width <= 0x4000_0000,
            self.images@[0].image.height <= 0x4000_0000,
    {
        let w = self.images@[0].image.width;
        let h = self.images@[0].image.height;
        assert(self.images@[0].wf());
        assert(w <= 0x4000_0000 && h <= 0x4000_0000) by (nonlinear_arith)
            requires 4 * w * h <= u32::MAX, w >= 1, h >= 1;
    }

    /// The fractional mip level for a sample at `uv` whose neighbours above and to
    /// the right sample at `top` and `right`.
    pub fn mip_level(&self, uv: (i64, i64), top: (i64, i64), right: (i64, i64)) -> (r: u64)
        requires
            self.wf(),
            uv_ok(uv),
            uv_ok(top),
            uv_ok(right),
        ensures
            r == mip_level_spec(uv, top, right,
                self.images@[0].image.width as int, self.images@[0].image.height as int),
    {
        proof {
            self.lemma_dims();
        }
        let w = self.images[0].image.width;
        let h = self.images[0].image.height;
        let l1 = uv_len(top.0 - uv.0, top.1 - uv.1, w, h);
        let l2 = uv_len(right.0 - uv.0, right.1 - uv.1, w, h);
        log2_fixed(if l1 >= l2 { l1 } else { l2 })
    }

    /// The anisotropically filtered color of the footprint whose texture-space
    /// corners, in order round it, are `a`, `b`, `c`, `d`.
    #[verifier::rlimit(100)]
    pub fn get_anisotropic(&self, a: (i64, i64), b: (i64, i64), c: (i64, i64), d: (i64, i64)) -> (r: Rgb)
        requires
            self.wf(),
            uv_ok(a),
            uv_ok(b),
            uv_ok(c),
            uv_ok(d),
        ensures
            r == aniso_spec(self.images@, a, b, c, d,
                self.images@[0].image.width as int, self.images@[0].image.height as int),
    {
        proof {
            self.lemma_dims();
        }
        let w = self.images[0].image.width;
        let h = self.images[0].image.height;
        let ghost (wi, hi) = (w as int, h as int);
        let mid_ab = (mid(a.0, b.0), mid(a.1, b.1));
        let mid_bc = (mid(b.0, c.0), mid(b.1, c.1));
        let mid_cd = (mid(c.0, d.0), mid(c.1, d.1));
        let mid_da = (mid(d.0, a.0), mid(d.1, a.1));
        let ab_cd = (mid_cd.0 - mid_ab.0, mid_cd.1 - mid_ab.1);
        let bc_da = (mid_da.0 - mid_bc.0, mid_da.1 - mid_bc.1);
        let len_ab_cd = uv_len(ab_cd.0, ab_cd.1, w, h);
        let len_bc_da = uv_len(bc_da.0, bc_da.1, w, h);
        let (shorter, longer, dir, start) = if len_ab_cd > len_bc_da {
            (len_bc_da, len_ab_cd, ab_cd, mid_ab)
        } else {
            (len_ab_cd, len_bc_da, bc_da, mid_bc)
        };
        let count: u64 = if shorter == 0 || longer / shorter >= 16 { 16 } else { longer / shorter };
        let level = log2_fixed(shorter);
        proof {
            assert(aniso_plan(a, b, c, d, wi, hi) == (level as nat, count as nat,
                (start.0 as int, start.1 as int), (dir.0 as int, dir.1 as int)));
        }
        if count <= 1 {
            return self.get_by_level(level, a.0, a.1);
        }
        let ghost gstart = (start.0 as int, start.1 as int);
        let ghost gdir = (dir.0 as int, dir.1 as int);
        let mut sum: (u32, u32, u32) = (0, 0, 0);
        let mut i: u64 = 0;
        while i < count
            invariant
                self.wf(),
                2 <= count <= 16,
                i <= count,
                abs(dir.0 as int) <= 2 * ATTR_LIMIT,
                abs(dir.1 as int) <= 2 * ATTR_LIMIT,
                abs(start.0 as int) <= ATTR_LIMIT,
                abs(start.1 as int) <= ATTR_LIMIT,
                gstart == (start.0 as int, start.1 as int),
                gdir == (dir.0 as int, dir.1 as int),
                sum.0 <= 255 * i && sum.1 <= 255 * i && sum.2 <= 255 * i,
                (sum.0 as int, sum.1 as int, sum.2 as int)
                    == aniso_sum(self.images@, level as nat, gstart, gdir, count as nat, i as int),
            decreases count - i,
        {
            let k: i128 = 2 * (i as i128) + 1;
            let den: i128 = 2 * count as i128;
            proof {
                crate::raster::lemma_mul_abs(dir.0 as int, k as int, 2 * ATTR_LIMIT, 64);
                crate::raster::lemma_mul_abs(dir.1 as int, k as int, 2 * ATTR_LIMIT, 64);
            }
            let nx: i128 = dir.0 as i128 * k;
            let ny: i128 = dir.1 as i128 * k;
            proof {
                lemma_div_shrinks(nx as int, den as int);
                lemma_div_shrinks(ny as int, den as int);
            }
            let p = (
                clamp_to_i64(start.0 as i128 + floor_div(nx, den)),
                clamp_to_i64(start.1 as i128 + floor_div(ny, den)),
            );
            proof {
                assert(p == aniso_sample(gstart, gdir, count as nat, i as int));
            }
            let col = self.get_by_level(level, p.0, p.1);
            sum = (sum.0 + col.r as u32, sum.1 + col.g as u32, sum.2 + col.b as u32);
            i = i + 1;
        }
        Rgb {
            r: (sum.0 / count as u32) as u8,
            g: (sum.1 / count as u32) as u8,
            b: (sum.2 / count as u32) as u8,
        }
    }
}

} // verus!
