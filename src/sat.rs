use vstd::prelude::*;
use crate::image::{PixImage, Rgb, Rgba};
use crate::texture::{clamp_uv, nearest, nearest_spec, sampleable, UV_ONE};
use crate::util::floor_div;

verus! {

/// Channel `k` (red, green, blue) of a color.
pub open spec fn chan(c: Rgba, k: int) -> int {
    if k == 0 { c.r as int } else if k == 1 { c.g as int } else { c.b as int }
}

/// Sum of channel `k` over pixels `c0..c1` of row `r`.
pub open spec fn row_sum(img: PixImage, k: int, c0: int, c1: int, r: int) -> int
    decreases c1 - c0,
{
    if c1 <= c0 { 0 } else { row_sum(img, k, c0, c1 - 1, r) + chan(img.pixel(c1 - 1, r), k) }
}

/// Sum of channel `k` over the rectangle of pixels `c0..c1` by `r0..r1`.
pub open spec fn rect_sum(img: PixImage, k: int, c0: int, c1: int, r0: int, r1: int) -> int
    decreases r1 - r0,
{
    if r1 <= r0 { 0 } else { rect_sum(img, k, c0, c1, r0, r1 - 1) + row_sum(img, k, c0, c1, r1 - 1) }
}

/// Sum of channel `k` over the pixels left of column `c` and below row `r`.
pub open spec fn prefix(img: PixImage, k: int, c: int, r: int) -> int {
    rect_sum(img, k, 0, c, 0, r)
}

proof fn lemma_row_split(img: PixImage, k: int, c0: int, c1: int, r: int)
    requires
        0 <= c0 <= c1,
    ensures
        row_sum(img, k, 0, c1, r) == row_sum(img, k, 0, c0, r) + row_sum(img, k, c0, c1, r),
    decreases c1 - c0,
{
    if c1 > c0 {
        lemma_row_split(img, k, c0, c1 - 1, r);
    }
}

proof fn lemma_rect_cols(img: PixImage, k: int, c0: int, c1: int, r1: int)
    requires
        0 <= c0 <= c1,
    ensures
        rect_sum(img, k, c0, c1, 0, r1) == rect_sum(img, k, 0, c1, 0, r1) - rect_sum(img, k, 0, c0, 0, r1),
    decreases r1,
{
    if r1 > 0 {
        lemma_rect_cols(img, k, c0, c1, r1 - 1);
        lemma_row_split(img, k, c0, c1, r1 - 1);
    }
}

proof fn lemma_rect_rows(img: PixImage, k: int, c0: int, c1: int, r0: int, r1: int)
    requires
        0 <= r0 <= r1,
    ensures
        rect_sum(img, k, c0, c1, r0, r1) == rect_sum(img, k, c0, c1, 0, r1) - rect_sum(img, k, c0, c1, 0, r0),
    decreases r1 - r0,
{
    if r1 > r0 {
        lemma_rect_rows(img, k, c0, c1, r0, r1 - 1);
    }
}

/// The box sum over any rectangle of pixels equals four lookups of the
/// summed-area table: `S(c1, r1) - S(c0, r1) - S(c1, r0) + S(c0, r0)`.
pub proof fn lemma_box_sum(img: PixImage, k: int, c0: int, c1: int, r0: int, r1: int)
    requires
        0 <= c0 <= c1,
        0 <= r0 <= r1,
    ensures
        rect_sum(img, k, c0, c1, r0, r1)
            == prefix(img, k, c1, r1) - prefix(img, k, c0, r1) - prefix(img, k, c1, r0) + prefix(img, k, c0, r0),
{
    lemma_rect_rows(img, k, c0, c1, r0, r1);
    lemma_rect_cols(img, k, c0, c1, r1);
    lemma_rect_cols(img, k, c0, c1, r0);
}

proof fn lemma_rect_bounds(img: PixImage, k: int, c: int, r: int)
    requires
        0 <= c,
        0 <= r,
    ensures
        0 <= rect_sum(img, k, 0, c, 0, r) <= 255 * c * r,
    decreases r,
{
    if r > 0 {
        lemma_rect_bounds(img, k, c, r - 1);
        lemma_row_bounds(img, k, c, r - 1);
        assert(255 * c * (r - 1) + 255 * c == 255 * c * r) by (nonlinear_arith);
    }
}

proof fn lemma_row_bounds(img: PixImage, k: int, c: int, r: int)
    requires
        0 <= c,
    ensures
        0 <= row_sum(img, k, 0, c, r) <= 255 * c,
    decreases c,
{
    if c > 0 {
        lemma_row_bounds(img, k, c - 1, r);
    }
}

proof fn lemma_row_nonneg(img: PixImage, k: int, c0: int, c1: int, r: int)
    ensures
        0 <= row_sum(img, k, c0, c1, r),
    decreases c1 - c0,
{
    if c1 > c0 {
        lemma_row_nonneg(img, k, c0, c1 - 1, r);
    }
}

proof fn lemma_rect_nonneg(img: PixImage, k: int, c0: int, c1: int, r0: int, r1: int)
    ensures
        0 <= rect_sum(img, k, c0, c1, r0, r1),
    decreases r1 - r0,
{
    if r1 > r0 {
        lemma_rect_nonneg(img, k, c0, c1, r0, r1 - 1);
        lemma_row_nonneg(img, k, c0, c1, r1 - 1);
    }
}

/// A summed-area table: for each channel, the sums of the pixels left of and below
/// every grid point, with a row and a column of zeros at the low edges.
#[derive(Debug)]
pub struct SummedAreaTable {
    pub image: PixImage,
    pub sums: Vec<[u64; 3]>,
}

impl SummedAreaTable {
    pub open spec fn wf(&self) -> bool {
        &&& sampleable(self.image)
        &&& self.sums@.len() == (self.image.width + 1) * (self.image.height + 1)
        &&& forall|c: int, r: int, k: int|
            0 <= c <= self.image.width && 0 <= r <= self.image.height && 0 <= k < 3
                ==> #[trigger] self.sums@[r * (self.image.width + 1) + c][k] == prefix(self.image, k, c, r)
    }
}

/// The recurrence a summed-area table is built by.
proof fn lemma_prefix_step(img: PixImage, k: int, c: int, r: int)
    requires
        c >= 1,
        r >= 1,
    ensures
        prefix(img, k, c, r) == prefix(img, k, c, r - 1) + prefix(img, k, c - 1, r)
            - prefix(img, k, c - 1, r - 1) + chan(img.pixel(c - 1, r - 1), k),
{
    assert(rect_sum(img, k, 0, c, 0, r) == rect_sum(img, k, 0, c, 0, r - 1) + row_sum(img, k, 0, c, r - 1));
    assert(rect_sum(img, k, 0, c - 1, 0, r) == rect_sum(img, k, 0, c - 1, 0, r - 1) + row_sum(img, k, 0, c - 1, r - 1));
    assert(row_sum(img, k, 0, c, r - 1) == row_sum(img, k, 0, c - 1, r - 1) + chan(img.pixel(c - 1, r - 1), k));
}

proof fn lemma_prefix_edges(img: PixImage, k: int, c: int, r: int)
    requires
        c == 0 || r == 0,
        r >= 0,
    ensures
        prefix(img, k, c, r) == 0,
    decreases r,
{
    if r > 0 {
        lemma_prefix_edges(img, k, c, r - 1);
        assert(row_sum(img, k, 0, 0, r - 1) == 0);
    }
}

fn entry(a: u64, b: u64, d: u64, p: u8, Ghost(v): Ghost<int>) -> (r: u64)
    requires
        v == a + b - d + p,
        0 <= v <= 255 * 0x2_0000_0000,
        a <= 255 * 0x2_0000_0000,
        b <= 255 * 0x2_0000_0000,
    ensures
        r == v,
{
    a + b + p as u64 - d
}

impl SummedAreaTable {
    /// The table of `image`.
    pub fn new(image: PixImage) -> (r: SummedAreaTable)
        requires
            sampleable(image),
        ensures
            r.wf(),
            r.image == image,
    {
        let w = image.width;
        let h = image.height;
        proof {
            assert((w + 1) * (h + 1) <= 4 * w * h + 1) by (nonlinear_arith) requires w >= 1, h >= 1;
            assert(w * h <= 0x1_0000_0000) by (nonlinear_arith) requires 4 * w * h <= u32::MAX;
            assert(w < 0x4000_0000 && h < 0x4000_0000) by (nonlinear_arith)
                requires 4 * w * h <= u32::MAX, w >= 1, h >= 1;
        }
        let ww: usize = w as usize + 1;
        let mut sums: Vec<[u64; 3]> = Vec::new();
        let mut r: u32 = 0;
        while r <= h
            invariant
                sampleable(image),
                w == image.width,
                h == image.height,
                ww == w + 1,
                (w + 1) * (h + 1) <= 4 * w * h + 1,
                w * h <= 0x1_0000_0000,
                w < 0x4000_0000 && h < 0x4000_0000,
                r <= h + 1,
                sums@.len() == r * ww,
                forall|c2: int, r2: int, k: int|
                    0 <= c2 < ww && 0 <= r2 < r && 0 <= k < 3
                        ==> #[trigger] sums@[r2 * ww + c2][k] == prefix(image, k, c2, r2),
            decreases h + 1 - r,
        {
            let mut c: u32 = 0;
            while c <= w
                invariant
                    sampleable(image),
                    w == image.width,
                    h == image.height,
                    ww == w + 1,
                    (w + 1) * (h + 1) <= 4 * w * h + 1,
                    w * h <= 0x1_0000_0000,
                    w < 0x4000_0000 && h < 0x4000_0000,
                    r <= h,
                    c <= w + 1,
                    sums@.len() == r * ww + c,
                    forall|c2: int, r2: int, k: int|
                        0 <= c2 < ww && 0 <= r2 && 0 <= k < 3 && (r2 < r || (r2 == r && c2 < c))
                            ==> #[trigger] sums@[r2 * ww + c2][k] == prefix(image, k, c2, r2),
                decreases w + 1 - c,
            {
                proof {
                    assert(r * ww + c < (w + 1) * (h + 1)) by (nonlinear_arith)
                        requires r <= h, c <= w, ww == w + 1;
                    assert forall|k: int| 0 <= k < 3 implies 0 <= #[trigger] prefix(image, k, c as int, r as int)
                        <= 255 * 0x2_0000_0000 by {
                        lemma_rect_bounds(image, k, c as int, r as int);
                        assert(255 * c * r <= 255 * 0x2_0000_0000) by (nonlinear_arith)
                            requires c <= w + 1, r <= h, w * h <= 0x1_0000_0000, w >= 1, h < 0x4000_0000;
                    }
                }
                let e: [u64; 3] = if r == 0 || c == 0 {
                    proof {
                        lemma_prefix_edges(image, 0, c as int, r as int);
                        lemma_prefix_edges(image, 1, c as int, r as int);
                        lemma_prefix_edges(image, 2, c as int, r as int);
                    }
                    [0, 0, 0]
                } else {
                    proof {
                        assert((r - 1) * ww + c == r * ww + c - ww) by (nonlinear_arith) requires ww == w + 1;
                        assert(0 <= (r - 1) * ww <= (r - 1) * ww + c) by (nonlinear_arith) requires r >= 1, c >= 1;
                        assert(r * ww <= r * ww + c) by (nonlinear_arith) requires r >= 1, c >= 1;
                    }
                    let up = sums[((r - 1) as usize) * ww + c as usize];
                    let left = sums[(r as usize) * ww + c as usize - 1];
                    let diag = sums[((r - 1) as usize) * ww + c as usize - 1];
                    let p = image.get_rgba(c - 1, r - 1);
                    proof {
                        assert((r - 1) * ww + c == r * ww + c - ww) by (nonlinear_arith) requires ww == w + 1;
                        assert(0 <= (r - 1) * ww <= (r - 1) * ww + c - 1) by (nonlinear_arith) requires r >= 1, c >= 1;
                        assert(r * ww <= r * ww + c - 1) by (nonlinear_arith) requires r >= 1, c >= 1;
                        assert(up[0] == prefix(image, 0, c as int, r - 1));
                        assert(up[1] == prefix(image, 1, c as int, r - 1));
                        assert(up[2] == prefix(image, 2, c as int, r - 1));
                        assert(r * ww + c - 1 == r * ww + (c - 1));
                        assert(left == sums@[r * ww + (c - 1)]);
                        assert(left[0] == prefix(image, 0, c - 1, r as int));
                        assert(left[1] == prefix(image, 1, c - 1, r as int));
                        assert(left[2] == prefix(image, 2, c - 1, r as int));
                        assert((r - 1) * ww + c - 1 == (r - 1) * ww + (c - 1));
                        assert(diag == sums@[(r - 1) * ww + (c - 1)]);
                        assert(diag[0] == prefix(image, 0, c - 1, r - 1));
                        assert(diag[1] == prefix(image, 1, c - 1, r - 1));
                        assert(diag[2] == prefix(image, 2, c - 1, r - 1));
                        lemma_prefix_step(image, 0, c as int, r as int);
                        lemma_prefix_step(image, 1, c as int, r as int);
                        lemma_prefix_step(image, 2, c as int, r as int);
                        lemma_rect_bounds(image, 0, c as int, r - 1);
                        lemma_rect_bounds(image, 1, c as int, r - 1);
                        lemma_rect_bounds(image, 2, c as int, r - 1);
                        lemma_rect_bounds(image, 0, c - 1, r as int);
                        lemma_rect_bounds(image, 1, c - 1, r as int);
                        lemma_rect_bounds(image, 2, c - 1, r as int);
                        assert(255 * c * (r - 1) <= 255 * 0x2_0000_0000) by (nonlinear_arith)
                            requires c <= w, 1 <= r <= h, w * h <= 0x1_0000_0000;
                        assert(255 * (c - 1) * r <= 255 * 0x2_0000_0000) by (nonlinear_arith)
                            requires 1 <= c <= w, r <= h, w * h <= 0x1_0000_0000;
                    }
                    [
                        entry(up[0], left[0], diag[0], p.r, Ghost(prefix(image, 0, c as int, r as int))),
                        entry(up[1], left[1], diag[1], p.g, Ghost(prefix(image, 1, c as int, r as int))),
                        entry(up[2], left[2], diag[2], p.b, Ghost(prefix(image, 2, c as int, r as int))),
                    ]
                };
                let ghost before = sums@;
                sums.push(e);
                proof {
                    assert forall|c2: int, r2: int, k: int|
                        0 <= c2 < ww && 0 <= r2 && 0 <= k < 3 && (r2 < r || (r2 == r && c2 < c + 1))
                            implies #[trigger] sums@[r2 * ww + c2][k] == prefix(image, k, c2, r2) by {
                        if r2 < r || c2 < c {
                            assert(r2 * ww + c2 < r * ww + c) by (nonlinear_arith)
                                requires 0 <= c2 < ww, (r2 < r || (r2 == r && c2 < c));
                            assert(sums@[r2 * ww + c2] == before[r2 * ww + c2]);
                        } else {
                            assert(r2 * ww + c2 == r * ww + c);
                        }
                    }
                }
                c = c + 1;
            }
            proof {
                assert((r + 1) * ww == r * ww + ww) by (nonlinear_arith);
            }
            r = r + 1;
        }
        assert(r == h + 1);
        assert(r * ww == (w + 1) * (h + 1)) by (nonlinear_arith) requires r == h + 1, ww == w + 1;
        let ghost sums_final = sums@;
        let table = SummedAreaTable { image, sums };
        proof {
            assert forall|c: int, r2: int, k: int|
                0 <= c <= table.image.width && 0 <= r2 <= table.image.height && 0 <= k < 3
                    implies #[trigger] table.sums@[r2 * (table.image.width + 1) + c][k]
                        == prefix(table.image, k, c, r2) by {
                assert(ww as int == table.image.width + 1);
                assert(r2 * (table.image.width + 1) + c == r2 * ww + c);
                assert(sums_final[r2 * ww + c][k] == prefix(image, k, c, r2));
            }
        }
        table
    }
}

/// Texel index along an axis of `n` texels of the clamped coordinate `u`, rounded.
pub open spec fn texel_index(n: int, u: int) -> int {
    ((n - 1) * clamp_uv(u) + UV_ONE / 2) / (UV_ONE as int)
}

/// The box-filtered color of the texture-space rectangle from `(u0, v0)` to
/// `(u1, v1)`: the average over texels `x0..x1` by `y0..y1`, or, where the
/// rectangle spans at most one texel along an axis, the nearest texel to its
/// center.
pub open spec fn sat_get_spec(img: PixImage, u0: int, v0: int, u1: int, v1: int) -> Rgb {
    let x0 = texel_index(img.width as int, u0);
    let x1 = texel_index(img.width as int, u1);
    let y0 = texel_index(img.height as int, v0);
    let y1 = texel_index(img.height as int, v1);
    if x1 - x0 <= 1 || y1 - y0 <= 1 {
        nearest_spec(img, (u0 + u1) / 2, (v0 + v1) / 2)
    } else {
        let area = (x1 - x0) * (y1 - y0);
        Rgb {
            r: (rect_sum(img, 0, x0, x1, y0, y1) / area) as u8,
            g: (rect_sum(img, 1, x0, x1, y0, y1) / area) as u8,
            b: (rect_sum(img, 2, x0, x1, y0, y1) / area) as u8,
        }
    }
}

fn texel_round(n: u32, u: i64) -> (r: u32)
    requires
        n >= 1,
    ensures
        r == texel_index(n as int, u as int),
        r < n,
{
    let c: u64 = if u < 0 { 0 } else if u > UV_ONE { UV_ONE as u64 } else { u as u64 };
    proof {
        assert((n - 1) * c <= (n - 1) * 0x1_0000) by (nonlinear_arith) requires c <= 0x1_0000, n >= 1;
        assert((n - 1) * 0x1_0000 + 0x8000 < n * 0x1_0000) by (nonlinear_arith) requires n >= 1;
    }
    let s: u64 = (n as u64 - 1) * c + (UV_ONE as u64) / 2;
    proof {
        vstd::arithmetic::div_mod::lemma_div_is_ordered(s as int, n * 0x1_0000 - 1, 0x1_0000);
        vstd::arithmetic::div_mod::lemma_fundamental_div_mod_converse(n * 0x1_0000 - 1, 0x1_0000, n - 1, 0xffff);
    }
    (s / (UV_ONE as u64)) as u32
}

impl SummedAreaTable {
    /// The sums of each channel over texels `c0..c1` by `r0..r1`, from four
    /// lookups.
    pub fn box_sum(&self, c0: u32, r0: u32, c1: u32, r1: u32) -> (r: [u64; 3])
        requires
            self.wf(),
            c0 <= c1 <= self.image.width,
            r0 <= r1 <= self.image.height,
        ensures
            forall|k: int| 0 <= k < 3 ==> r[k] == rect_sum(self.image, k, c0 as int, c1 as int, r0 as int, r1 as int),
    {
        let w = self.image.width;
        let h = self.image.height;
        proof {
            assert(w < 0x4000_0000 && h < 0x4000_0000) by (nonlinear_arith)
                requires 4 * w * h <= u32::MAX, w >= 1, h >= 1;
            assert(w * h <= 0x1_0000_0000) by (nonlinear_arith) requires 4 * w * h <= u32::MAX;
        }
        let ww: usize = w as usize + 1;
        proof {
            assert((w + 1) * (h + 1) <= 4 * w * h + 1) by (nonlinear_arith) requires w >= 1, h >= 1;
            assert(r1 * ww + c1 < (w + 1) * (h + 1)) by (nonlinear_arith) requires r1 <= h, c1 <= w, ww == w + 1;
            assert(r0 * ww + c0 <= r0 * ww + c1 <= r1 * ww + c1) by (nonlinear_arith) requires r0 <= r1, c0 <= c1;
            assert(r0 * ww + c0 <= r1 * ww + c0 <= r1 * ww + c1) by (nonlinear_arith) requires r0 <= r1, c0 <= c1;
        }
        let s11 = self.sums[r1 as usize * ww + c1 as usize];
        let s01 = self.sums[r1 as usize * ww + c0 as usize];
        let s10 = self.sums[r0 as usize * ww + c1 as usize];
        let s00 = self.sums[r0 as usize * ww + c0 as usize];
        proof {
            assert forall|k: int| 0 <= k < 3 implies {
                &&& s11[k] == prefix(self.image, k, c1 as int, r1 as int)
                &&& s01[k] == prefix(self.image, k, c0 as int, r1 as int)
                &&& s10[k] == prefix(self.image, k, c1 as int, r0 as int)
                &&& s00[k] == prefix(self.image, k, c0 as int, r0 as int)
                &&& #[trigger] rect_sum(self.image, k, c0 as int, c1 as int, r0 as int, r1 as int)
                    == s11[k] - s01[k] - s10[k] + s00[k]
                &&& rect_sum(self.image, k, c0 as int, c1 as int, r0 as int, r1 as int) >= 0
            } by {
                assert(self.sums@[r1 * (w + 1) + c1] == s11);
                assert(self.sums@[r1 * (w + 1) + c0] == s01);
                assert(self.sums@[r0 * (w + 1) + c1] == s10);
                assert(self.sums@[r0 * (w + 1) + c0] == s00);
                lemma_box_sum(self.image, k, c0 as int, c1 as int, r0 as int, r1 as int);
                lemma_rect_nonneg(self.image, k, c0 as int, c1 as int, r0 as int, r1 as int);
            }
            assert(rect_sum(self.image, 0, c0 as int, c1 as int, r0 as int, r1 as int) >= 0);
            assert(rect_sum(self.image, 1, c0 as int, c1 as int, r0 as int, r1 as int) >= 0);
            assert(rect_sum(self.image, 2, c0 as int, c1 as int, r0 as int, r1 as int) >= 0);
            assert forall|k: int| 0 <= k < 3 implies s11[k] + s00[k] <= u64::MAX by {
                lemma_rect_bounds(self.image, k, c1 as int, r1 as int);
                lemma_rect_bounds(self.image, k, c0 as int, r0 as int);
                assert(255 * c1 * r1 <= 255 * 0x2_0000_0000) by (nonlinear_arith)
                    requires c1 <= w, r1 <= h, w * h <= 0x1_0000_0000;
                assert(255 * c0 * r0 <= 255 * 0x2_0000_0000) by (nonlinear_arith)
                    requires c0 <= w, r0 <= h, w * h <= 0x1_0000_0000;
            }
        }
        let r = [
            (s11[0] + s00[0]) - (s01[0] + s10[0]),
            (s11[1] + s00[1]) - (s01[1] + s10[1]),
            (s11[2] + s00[2]) - (s01[2] + s10[2]),
        ];
        proof {
            assert forall|k: int| 0 <= k < 3 implies r[k] == rect_sum(self.image, k, c0 as int, c1 as int, r0 as int, r1 as int) by {
                if k == 0 {
                } else if k == 1 {
                } else {
                }
            }
        }
        r
    }

    /// The box-filtered color of the texture-space rectangle from `(u0, v0)` to
    /// `(u1, v1)`.
    pub fn get(&self, u0: i64, v0: i64, u1: i64, v1: i64) -> (r: Rgb)
        requires
            self.wf(),
        ensures
            r == sat_get_spec(self.image, u0 as int, v0 as int, u1 as int, v1 as int),
    {
        let x0 = texel_round(self.image.width, u0);
        let x1 = texel_round(self.image.width, u1);
        let y0 = texel_round(self.image.height, v0);
        let y1 = texel_round(self.image.height, v1);
        if x1 <= x0 + 1 || y1 <= y0 + 1 {
            let cu = floor_div(u0 as i128 + u1 as i128, 2) as i64;
            let cv = floor_div(v0 as i128 + v1 as i128, 2) as i64;
            nearest(&self.image, cu, cv)
        } else {
            let s = self.box_sum(x0, y0, x1, y1);
            let dx = (x1 - x0) as u64;
            let dy = (y1 - y0) as u64;
            proof {
                let w = self.image.width;
                let h = self.image.height;
                assert(w < 0x4000_0000 && h < 0x4000_0000) by (nonlinear_arith)
                    requires 4 * w * h <= u32::MAX, w >= 1, h >= 1;
                assert(0 < dx * dy <= 0x1_0000_0000 * 0x1_0000_0000 / 4) by (nonlinear_arith)
                    requires 2 <= dx <= 0x8000_0000, 2 <= dy <= 0x8000_0000;
            }
            let area: u64 = dx * dy;
            proof {
                assert(forall|k: int| 0 <= k < 3 ==> s[k] == rect_sum(self.image, k, x0 as int, x1 as int, y0 as int, y1 as int));
                assert(s[0] == rect_sum(self.image, 0, x0 as int, x1 as int, y0 as int, y1 as int));
                assert(s[1] == rect_sum(self.image, 1, x0 as int, x1 as int, y0 as int, y1 as int));
                assert(s[2] == rect_sum(self.image, 2, x0 as int, x1 as int, y0 as int, y1 as int));
            }
            Rgb { r: (s[0] / area) as u8, g: (s[1] / area) as u8, b: (s[2] / area) as u8 }
        }
    }
}

} // verus!
