use vstd::prelude::*;
use crate::geometry::Vec4;
use crate::image::{Rgb, Rgba};
use crate::util::floor_div;

verus! {

/// Largest magnitude of a screen-space coordinate or depth.
pub const COORD_LIMIT: i64 = 0x100_0000;

/// Largest homogeneous divisor `w` accepted from the vertex stage.
pub const W_LIMIT: i64 = 0x10_0000;

/// Depth in screen space is normalized-device z in units of `1 / DEPTH_ONE`.
pub const DEPTH_ONE: i64 = 0x1_0000;

/// A vertex in screen space: pixel position `(x, y)`, depth `z` (normalized-device
/// z in units of `1 / DEPTH_ONE`), and the homogeneous divisor `w` of its
/// clip-space position.
#[derive(Clone, Copy, Debug, PartialEq, Eq, Structural)]
pub struct ScreenVertex {
    pub x: i64,
    pub y: i64,
    pub z: i64,
    pub w: i64,
}

/// The three screen-space vertices of a triangle.
#[derive(Clone, Copy, Debug, PartialEq, Eq, Structural)]
pub struct Triangle {
    pub a: ScreenVertex,
    pub b: ScreenVertex,
    pub c: ScreenVertex,
}

/// Barycentric weights `a / den`, `b / den`, `c / den`.
#[derive(Clone, Copy, Debug, PartialEq, Eq, Structural)]
pub struct Bary {
    pub a: i128,
    pub b: i128,
    pub c: i128,
    pub den: i128,
}

pub open spec fn abs(v: int) -> int {
    if v < 0 { -v } else { v }
}

pub open spec fn vertex_ok(v: ScreenVertex) -> bool {
    &&& abs(v.x as int) <= COORD_LIMIT
    &&& abs(v.y as int) <= COORD_LIMIT
    &&& abs(v.z as int) <= COORD_LIMIT
    &&& 0 < v.w <= W_LIMIT
}

pub open spec fn tri_ok(t: Triangle) -> bool {
    vertex_ok(t.a) && vertex_ok(t.b) && vertex_ok(t.c)
}

/// Twice the signed area of the triangle.
pub open spec fn area2(t: Triangle) -> int {
    (t.b.x - t.a.x) * (t.c.y - t.b.y) + (t.a.y - t.b.y) * (t.c.x - t.b.x)
}

/// `q * area2 * alpha` at the point `(sx / q, sy / q)`.
pub open spec fn edge_a(t: Triangle, sx: int, sy: int, q: int) -> int {
    (t.b.x * q - sx) * (t.c.y - t.b.y) + (sy - t.b.y * q) * (t.c.x - t.b.x)
}

/// `q * area2 * beta` at the point `(sx / q, sy / q)`.
pub open spec fn edge_b(t: Triangle, sx: int, sy: int, q: int) -> int {
    (t.c.x * q - sx) * (t.a.y - t.c.y) + (sy - t.c.y * q) * (t.a.x - t.c.x)
}

pub open spec fn sign(v: int) -> int {
    if v < 0 { -1 } else { 1 }
}

pub proof fn lemma_sign_mul(d: int, v: int)
    ensures
        sign(d) * v == (if d < 0 { -v } else { v }),
{
    if d < 0 {
        assert(-1 * v == -v);
    } else {
        assert(1 * v == v);
    }
}

/// Affine barycentric weights of the point `(sx / q, sy / q)`, over a common
/// denominator that is positive for a non-degenerate triangle.
pub open spec fn affine_spec(t: Triangle, sx: int, sy: int, q: int) -> Bary {
    let s = sign(area2(t));
    let ea = edge_a(t, sx, sy, q);
    let eb = edge_b(t, sx, sy, q);
    let den = q * area2(t);
    Bary {
        a: (s * ea) as i128,
        b: (s * eb) as i128,
        c: (s * (den - ea - eb)) as i128,
        den: (s * den) as i128,
    }
}

/// The point `(sx / q, sy / q)` lies in the closed triangle: no weight is negative.
pub open spec fn covered(t: Triangle, sx: int, sy: int, q: int) -> bool {
    let w = affine_spec(t, sx, sy, q);
    w.a >= 0 && w.b >= 0 && w.c >= 0
}

pub open spec fn clamp_i64(v: int) -> i64 {
    if v < i64::MIN { i64::MIN } else if v > i64::MAX { i64::MAX } else { v as i64 }
}

/// Affine interpolation of the vertices' depths at `(sx / q, sy / q)`, rounded down
/// (and held to the `i64` range far outside the triangle).
pub open spec fn depth_spec(t: Triangle, sx: int, sy: int, q: int) -> i64 {
    let w = affine_spec(t, sx, sy, q);
    clamp_i64((w.a * t.a.z + w.b * t.b.z + w.c * t.c.z) / (w.den as int))
}

/// Perspective-correct weights from affine ones: each affine weight divided by its
/// vertex's `w`, renormalized to sum to one.
pub open spec fn perspective_spec(t: Triangle, w: Bary) -> Bary {
    let pa = w.a * t.b.w * t.c.w;
    let pb = w.b * t.a.w * t.c.w;
    let pc = w.c * t.a.w * t.b.w;
    Bary { a: pa as i128, b: pb as i128, c: pc as i128, den: (pa + pb + pc) as i128 }
}

/// Largest scale of a sample position.
pub const Q_LIMIT: i64 = 512;

/// Sample positions that the weight computations accept: within the coordinate
/// range, scaled by `q`.
pub open spec fn sample_ok(sx: int, sy: int, q: int) -> bool {
    &&& 1 <= q <= Q_LIMIT
    &&& abs(sx) <= (COORD_LIMIT + 2) * q
    &&& abs(sy) <= (COORD_LIMIT + 2) * q
}

pub proof fn lemma_mul_abs(a: int, b: int, ba: int, bb: int)
    requires
        abs(a) <= ba,
        abs(b) <= bb,
    ensures
        abs(a * b) <= ba * bb,
        -(ba * bb) <= a * b <= ba * bb,
{
    assert(abs(a * b) == abs(a) * abs(b)) by (nonlinear_arith);
    assert(abs(a) * abs(b) <= ba * bb) by (nonlinear_arith)
        requires abs(a) <= ba, abs(b) <= bb, 0 <= abs(a), 0 <= abs(b);
}

/// Bounds on the terms of the affine weights of a sample of a well-formed triangle.
pub proof fn lemma_affine_bounds(t: Triangle, sx: int, sy: int, q: int)
    requires
        tri_ok(t),
        sample_ok(sx, sy, q),
    ensures
        abs(t.b.x * q) <= 0x2_0000_0000,
        abs(t.b.y * q) <= 0x2_0000_0000,
        abs(t.c.x * q) <= 0x2_0000_0000,
        abs(t.c.y * q) <= 0x2_0000_0000,
        abs((t.b.x * q - sx) * (t.c.y - t.b.y)) <= 0x2000_0000_0000_0000,
        abs((sy - t.b.y * q) * (t.c.x - t.b.x)) <= 0x2000_0000_0000_0000,
        abs((t.c.x * q - sx) * (t.a.y - t.c.y)) <= 0x2000_0000_0000_0000,
        abs((sy - t.c.y * q) * (t.a.x - t.c.x)) <= 0x2000_0000_0000_0000,
        abs((t.b.x - t.a.x) * (t.c.y - t.b.y)) <= 0x10_0000_0000_0000,
        abs((t.a.y - t.b.y) * (t.c.x - t.b.x)) <= 0x10_0000_0000_0000,
        abs(area2(t)) <= 0x20_0000_0000_0000,
        abs(q * area2(t)) <= 0x4000_0000_0000_0000,
        abs(affine_spec(t, sx, sy, q).a as int) <= 0x4000_0000_0000_0000,
        abs(affine_spec(t, sx, sy, q).b as int) <= 0x4000_0000_0000_0000,
        abs(affine_spec(t, sx, sy, q).c as int) <= 0x1_0000_0000_0000_0000,
        abs(affine_spec(t, sx, sy, q).den as int) <= 0x4000_0000_0000_0000,
{
    let L = COORD_LIMIT as int;
    let qq = Q_LIMIT as int;
    lemma_mul_abs(t.b.x as int, q, L, qq);
    lemma_mul_abs(t.b.y as int, q, L, qq);
    lemma_mul_abs(t.c.x as int, q, L, qq);
    lemma_mul_abs(t.c.y as int, q, L, qq);
    assert((L + 2) * q <= (L + 2) * qq) by (nonlinear_arith)
        requires q <= qq, L + 2 >= 0;
    let big = 0x8_0000_0000;
    let small = 0x400_0000;
    lemma_mul_abs(t.b.x * q - sx, t.c.y - t.b.y, big, small);
    lemma_mul_abs(sy - t.b.y * q, t.c.x - t.b.x, big, small);
    lemma_mul_abs(t.c.x * q - sx, t.a.y - t.c.y, big, small);
    lemma_mul_abs(sy - t.c.y * q, t.a.x - t.c.x, big, small);
    lemma_mul_abs(t.b.x - t.a.x, t.c.y - t.b.y, small, small);
    lemma_mul_abs(t.a.y - t.b.y, t.c.x - t.b.x, small, small);
    lemma_mul_abs(q, area2(t), qq, 0x20_0000_0000_0000);
    let ea = edge_a(t, sx, sy, q);
    let eb = edge_b(t, sx, sy, q);
    let den = q * area2(t);
    if area2(t) < 0 {
        assert(sign(area2(t)) * ea == -ea);
        assert(sign(area2(t)) * eb == -eb);
        assert(sign(area2(t)) * (den - ea - eb) == -(den - ea - eb));
        assert(sign(area2(t)) * den == -den);
    } else {
        assert(sign(area2(t)) * ea == ea);
        assert(sign(area2(t)) * eb == eb);
        assert(sign(area2(t)) * (den - ea - eb) == den - ea - eb);
        assert(sign(area2(t)) * den == den);
    }
}

/// Affine barycentric weights of `(sx / q, sy / q)` relative to the triangle.
pub fn barycentric(t: &Triangle, sx: i64, sy: i64, q: i64) -> (r: Bary)
    requires
        tri_ok(*t),
        sample_ok(sx as int, sy as int, q as int),
    ensures
        r == affine_spec(*t, sx as int, sy as int, q as int),
{
    proof {
        lemma_affine_bounds(*t, sx as int, sy as int, q as int);
    }
    let (ax, ay) = (t.a.x as i128, t.a.y as i128);
    let (bx, by) = (t.b.x as i128, t.b.y as i128);
    let (cx, cy) = (t.c.x as i128, t.c.y as i128);
    let (sx, sy, q) = (sx as i128, sy as i128, q as i128);
    let ea: i128 = (bx * q - sx) * (cy - by) + (sy - by * q) * (cx - bx);
    let eb: i128 = (cx * q - sx) * (ay - cy) + (sy - cy * q) * (ax - cx);
    let area: i128 = (bx - ax) * (cy - by) + (ay - by) * (cx - bx);
    let den: i128 = q * area;
    proof {
        lemma_sign_mul(area2(*t), ea as int);
        lemma_sign_mul(area2(*t), eb as int);
        lemma_sign_mul(area2(*t), (den - ea - eb) as int);
        lemma_sign_mul(area2(*t), den as int);
    }
    if area < 0 {
        Bary { a: -ea, b: -eb, c: -(den - ea - eb), den: -den }
    } else {
        Bary { a: ea, b: eb, c: den - ea - eb, den }
    }
}

/// Perspective-correct weights from the affine weights `w` of a sample.
pub fn perspective(t: &Triangle, w: Bary) -> (r: Bary)
    requires
        tri_ok(*t),
        abs(w.a as int) <= 0x4000_0000_0000_0000,
        abs(w.b as int) <= 0x4000_0000_0000_0000,
        abs(w.c as int) <= 0x1_0000_0000_0000_0000,
    ensures
        r == perspective_spec(*t, w),
{
    let (wa, wb, wc) = (t.a.w as i128, t.b.w as i128, t.c.w as i128);
    proof {
        let wl = W_LIMIT as int;
        lemma_mul_abs(wb as int, wc as int, wl, wl);
        lemma_mul_abs(wa as int, wc as int, wl, wl);
        lemma_mul_abs(wa as int, wb as int, wl, wl);
        lemma_mul_abs(w.a as int, wb as int, 0x4000_0000_0000_0000, wl);
        lemma_mul_abs(w.b as int, wa as int, 0x4000_0000_0000_0000, wl);
        lemma_mul_abs(w.c as int, wa as int, 0x1_0000_0000_0000_0000, wl);
        lemma_mul_abs(w.a * wb, wc as int, 0x4000_0000_0000_0000 * wl, wl);
        lemma_mul_abs(w.b * wa, wc as int, 0x4000_0000_0000_0000 * wl, wl);
        lemma_mul_abs(w.c * wa, wb as int, 0x1_0000_0000_0000_0000 * wl, wl);
    }
    let pa = w.a * wb * wc;
    let pb = w.b * wa * wc;
    let pc = w.c * wa * wb;
    Bary { a: pa, b: pb, c: pc, den: pa + pb + pc }
}

/// Affine interpolation of the vertices' depths with weights `w`, rounded down and
/// held to the `i64` range.
pub fn interpolate_depth(t: &Triangle, w: Bary) -> (r: i64)
    requires
        tri_ok(*t),
        w.den > 0,
        abs(w.a as int) <= 0x4000_0000_0000_0000,
        abs(w.b as int) <= 0x4000_0000_0000_0000,
        abs(w.c as int) <= 0x1_0000_0000_0000_0000,
    ensures
        r == clamp_i64((w.a * t.a.z + w.b * t.b.z + w.c * t.c.z) / (w.den as int)),
{
    proof {
        let l = COORD_LIMIT as int;
        lemma_mul_abs(w.a as int, t.a.z as int, 0x4000_0000_0000_0000, l);
        lemma_mul_abs(w.b as int, t.b.z as int, 0x4000_0000_0000_0000, l);
        lemma_mul_abs(w.c as int, t.c.z as int, 0x1_0000_0000_0000_0000, l);
    }
    let n: i128 = w.a * (t.a.z as i128) + w.b * (t.b.z as i128) + w.c * (t.c.z as i128);
    let d = floor_div(n, w.den);
    if d < i64::MIN as i128 {
        i64::MIN
    } else if d > i64::MAX as i128 {
        i64::MAX
    } else {
        d as i64
    }
}

/// Largest magnitude of a per-vertex attribute that weights interpolate.
pub const ATTR_LIMIT: i64 = 0x10_0000;

pub open spec fn bary_bounded(w: Bary) -> bool {
    &&& abs(w.a as int) <= 0x100_0000_0000_0000_0000_0000_0000
    &&& abs(w.b as int) <= 0x100_0000_0000_0000_0000_0000_0000
    &&& abs(w.c as int) <= 0x100_0000_0000_0000_0000_0000_0000
    &&& abs(w.den as int) <= 0x200_0000_0000_0000_0000_0000_0000
}

/// Perspective-correct weights of a sample of a well-formed triangle are bounded.
pub proof fn lemma_perspective_bounds(t: Triangle, sx: int, sy: int, q: int)
    requires
        tri_ok(t),
        sample_ok(sx, sy, q),
    ensures
        bary_bounded(perspective_spec(t, affine_spec(t, sx, sy, q))),
{
    lemma_affine_bounds(t, sx, sy, q);
    let w = affine_spec(t, sx, sy, q);
    let (wa, wb, wc) = (t.a.w as int, t.b.w as int, t.c.w as int);
    let wl = W_LIMIT as int;
    lemma_mul_abs(w.a as int, wb, 0x4000_0000_0000_0000, wl);
    lemma_mul_abs(w.b as int, wa, 0x4000_0000_0000_0000, wl);
    lemma_mul_abs(w.c as int, wa, 0x1_0000_0000_0000_0000, wl);
    lemma_mul_abs(w.a * wb, wc, 0x4000_0000_0000_0000 * wl, wl);
    lemma_mul_abs(w.b * wa, wc, 0x4000_0000_0000_0000 * wl, wl);
    lemma_mul_abs(w.c * wa, wb, 0x1_0000_0000_0000_0000 * wl, wl);
}

/// `sum(w_i * p_i) / sum(w_i)`, rounded down and held to the `i64` range; `None`
/// where the weights sum to zero.
pub open spec fn interpolate_spec(w: Bary, p: [i64; 3]) -> Option<i64> {
    if w.den == 0 {
        None
    } else {
        let n = w.a * p[0] + w.b * p[1] + w.c * p[2];
        if w.den > 0 {
            Some(clamp_i64(n / (w.den as int)))
        } else {
            Some(clamp_i64((-n) / (-w.den as int)))
        }
    }
}

impl Bary {
    /// Interpolates the per-vertex values `p` with these weights.
    pub fn interpolate(&self, p: [i64; 3]) -> (r: Option<i64>)
        requires
            bary_bounded(*self),
            abs(p[0] as int) <= ATTR_LIMIT,
            abs(p[1] as int) <= ATTR_LIMIT,
            abs(p[2] as int) <= ATTR_LIMIT,
        ensures
            r == interpolate_spec(*self, p),
    {
        if self.den == 0 {
            return None;
        }
        proof {
            let big: int = 0x100_0000_0000_0000_0000_0000_0000;
            lemma_mul_abs(self.a as int, p[0] as int, big, ATTR_LIMIT as int);
            lemma_mul_abs(self.b as int, p[1] as int, big, ATTR_LIMIT as int);
            lemma_mul_abs(self.c as int, p[2] as int, big, ATTR_LIMIT as int);
        }
        let n: i128 = self.a * (p[0] as i128) + self.b * (p[1] as i128) + self.c * (p[2] as i128);
        let d = if self.den > 0 { floor_div(n, self.den) } else { floor_div(-n, -self.den) };
        Some(if d < i64::MIN as i128 {
            i64::MIN
        } else if d > i64::MAX as i128 {
            i64::MAX
        } else {
            d as i64
        })
    }
}

} // verus!
