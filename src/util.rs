use vstd::prelude::*;
use vstd::arithmetic::div_mod::{lemma_fundamental_div_mod, lemma_fundamental_div_mod_converse, lemma_div_is_ordered, lemma_div_multiples_vanish};

use crate::image::{ImageOriginPos, PixImage};

verus! {

/// The fixed-point unit of an interpolation parameter: `t == FRAC_ONE` stands for 1.
pub const FRAC_ONE: u32 = 65536;

/// Floor division by a positive divisor.
pub fn floor_div(n: i128, d: i128) -> (r: i128)
    requires
        d > 0,
        n > i128::MIN,
    ensures
        r == n / d,
{
    if n >= 0 {
        n / d
    } else {
        let m = -n - 1;
        let q = m / d;
        proof {
            lemma_fundamental_div_mod(m as int, d as int);
            lemma_fundamental_div_mod(n as int, d as int);
            let qq = m as int / d as int;
            let rr = m as int % d as int;
            // n == d * (-qq - 1) + (d - 1 - rr), with 0 <= d - 1 - rr < d
            assert(n == (-qq - 1) * d + (d - 1 - rr)) by (nonlinear_arith)
                requires m == -n - 1, m == d * qq + rr;
            lemma_fundamental_div_mod_converse(n as int, d as int, -qq - 1, d - 1 - rr);
        }
        -q - 1
    }
}

/// `a + (b - a) * t / FRAC_ONE`, rounded down: the value a fraction `t / FRAC_ONE`
/// of the way from `a` to `b`.
pub open spec fn lerp(t: int, a: int, b: int) -> int {
    a + ((b - a) * t) / (FRAC_ONE as int)
}

/// Linear interpolation between `a` (at `t == 0`) and `b` (at `t == FRAC_ONE`).
pub fn linear_interpolation(t: u32, a: i64, b: i64) -> (r: i64)
    requires
        t <= FRAC_ONE,
    ensures
        r == lerp(t as int, a as int, b as int),
        a <= b ==> a <= r <= b,
        b <= a ==> b <= r <= a,
{
    let diff: i128 = b as i128 - a as i128;
    proof {
        assert(-0x2_0000_0000_0000_0000 * 0x10000 <= diff * t <= 0x2_0000_0000_0000_0000 * 0x10000) by (nonlinear_arith)
            requires -0x2_0000_0000_0000_0000 <= diff <= 0x2_0000_0000_0000_0000, 0 <= t <= 0x10000;
    }
    let d: i128 = diff * (t as i128);
    let q = floor_div(d, FRAC_ONE as i128);
    proof {
        lemma_between(t as int, a as int, b as int);
    }
    (a as i128 + q) as i64
}

proof fn lemma_between(t: int, a: int, b: int)
    requires
        0 <= t <= FRAC_ONE,
    ensures
        a <= b ==> a <= lerp(t, a, b) <= b,
        b <= a ==> b <= lerp(t, a, b) <= a,
{
    let one = FRAC_ONE as int;
    let q = ((b - a) * t) / one;
    if a <= b {
        assert(0 <= (b - a) * t <= (b - a) * one) by (nonlinear_arith)
            requires a <= b, 0 <= t <= one;
        lemma_div_is_ordered(0, (b - a) * t, one);
        lemma_div_is_ordered((b - a) * t, (b - a) * one, one);
        lemma_div_multiples_vanish(b - a, one);
        assert(0int / one == 0);
    } else {
        assert((b - a) * one <= (b - a) * t <= 0) by (nonlinear_arith)
            requires b < a, 0 <= t <= one;
        lemma_div_is_ordered((b - a) * t, 0, one);
        lemma_div_is_ordered((b - a) * one, (b - a) * t, one);
        lemma_div_multiples_vanish(b - a, one);
        assert(0int / one == 0);
    }
}

/// The integer square root: the largest `r` with `r * r <= n`.
pub open spec fn isqrt_spec(n: nat) -> nat
    decreases n,
{
    if n == 0 {
        0
    } else {
        let r = isqrt_spec((n - 1) as nat);
        if (r + 1) * (r + 1) <= n { r + 1 } else { r }
    }
}

pub proof fn lemma_isqrt_spec(n: nat)
    ensures
        isqrt_spec(n) * isqrt_spec(n) <= n < (isqrt_spec(n) + 1) * (isqrt_spec(n) + 1),
    decreases n,
{
    if n == 0 {
        assert(isqrt_spec(0) == 0);
        let z = isqrt_spec(0);
        assert((z + 1) * (z + 1) == 1) by (nonlinear_arith) requires z == 0;
    } else {
        lemma_isqrt_spec((n - 1) as nat);
        let r = isqrt_spec((n - 1) as nat);
        if (r + 1) * (r + 1) > n {
            assert(isqrt_spec(n) == r);
        } else {
            assert(isqrt_spec(n) == r + 1);
            assert((r + 1) * (r + 1) == n);
            assert(n < (r + 2) * (r + 2)) by (nonlinear_arith) requires (r + 1) * (r + 1) == n, r >= 0;
            assert(r + 1 + 1 == r + 2);
        }
    }
}

proof fn lemma_isqrt_unique(n: nat, r: nat)
    requires
        r * r <= n < (r + 1) * (r + 1),
    ensures
        r == isqrt_spec(n),
{
    lemma_isqrt_spec(n);
    let s = isqrt_spec(n);
    if r < s {
        assert((r + 1) * (r + 1) <= s * s) by (nonlinear_arith) requires r + 1 <= s;
    } else if r > s {
        assert((s + 1) * (s + 1) <= r * r) by (nonlinear_arith) requires s + 1 <= r;
    }
}

/// The integer square root of `n`.
pub fn isqrt(n: u128) -> (r: u64)
    ensures
        r == isqrt_spec(n as nat),
        r * r <= n < (r + 1) * (r + 1),
{
    let mut lo: u128 = 0;
    let mut hi: u128 = 0x1_0000_0000_0000_0000;
    proof {
        assert(hi * hi > u128::MAX) by (nonlinear_arith) requires hi == 0x1_0000_0000_0000_0000;
    }
    while hi - lo > 1
        invariant
            lo < hi <= 0x1_0000_0000_0000_0000,
            lo * lo <= n,
            n < hi * hi,
        decreases hi - lo,
    {
        let mid = lo + (hi - lo) / 2;
        proof {
            assert(mid * mid <= hi * hi) by (nonlinear_arith) requires mid <= hi;
            if mid < 0x1_0000_0000_0000_0000 {
                assert(mid * mid <= 0xffff_ffff_ffff_ffff * 0xffff_ffff_ffff_ffff) by (nonlinear_arith)
                    requires mid <= 0xffff_ffff_ffff_ffff;
            }
        }
        if mid == 0x1_0000_0000_0000_0000 || mid * mid > n {
            hi = mid;
        } else {
            lo = mid;
        }
    }
    proof {
        assert(lo + 1 == hi);
        lemma_isqrt_unique(n as nat, lo as nat);
    }
    lo as u64
}

/// Base-2 logarithm of `x / FRAC_ONE` in units of `1 / FRAC_ONE`, linear between
/// powers of two and exact at them; zero for `x <= FRAC_ONE`.
pub open spec fn log2_fixed_spec(x: nat) -> nat
    decreases x,
{
    if x <= FRAC_ONE {
        0
    } else if x < 2 * FRAC_ONE {
        (x - FRAC_ONE) as nat
    } else {
        FRAC_ONE as nat + log2_fixed_spec(x / 2)
    }
}

proof fn lemma_log2_fixed_bound(x: nat)
    ensures
        log2_fixed_spec(x) <= x,
    decreases x,
{
    if x >= 2 * FRAC_ONE {
        lemma_log2_fixed_bound(x / 2);
    }
}

/// Fixed-point base-2 logarithm.
pub fn log2_fixed(x: u64) -> (r: u64)
    ensures
        r == log2_fixed_spec(x as nat),
    decreases x,
{
    let one = FRAC_ONE as u64;
    if x <= one {
        0
    } else if x < 2 * one {
        x - one
    } else {
        let rest = log2_fixed(x / 2);
        proof {
            lemma_log2_fixed_bound((x / 2) as nat);
        }
        one + rest
    }
}

/// The logarithm is exact at powers of two.
pub proof fn lemma_log2_fixed_pow2(k: nat)
    ensures
        log2_fixed_spec((FRAC_ONE as nat) * vstd::arithmetic::power2::pow2(k)) == k * FRAC_ONE,
    decreases k,
{
    vstd::arithmetic::power2::lemma_pow2_pos(k);
    if k == 0 {
        vstd::arithmetic::power2::lemma2_to64();
    } else {
        vstd::arithmetic::power2::lemma_pow2_unfold(k);
        lemma_log2_fixed_pow2((k - 1) as nat);
        let p = vstd::arithmetic::power2::pow2((k - 1) as nat);
        vstd::arithmetic::power2::lemma_pow2_pos((k - 1) as nat);
        assert(FRAC_ONE * (2 * p) / 2 == FRAC_ONE * p) by (nonlinear_arith) requires p >= 1;
        assert(FRAC_ONE * (2 * p) >= 2 * FRAC_ONE) by (nonlinear_arith) requires p >= 1;
        assert((k - 1) * FRAC_ONE + FRAC_ONE == k * FRAC_ONE) by (nonlinear_arith);
    }
}

/// A fraction `f / FRAC_ONE` of `n`, rounded down.
pub open spec fn part(f: int, n: int) -> int {
    f * n / (FRAC_ONE as int)
}

fn part_of(f: u32, n: u32) -> (r: u32)
    requires
        f <= FRAC_ONE,
    ensures
        r == part(f as int, n as int),
        r <= n,
{
    proof {
        assert(f * n <= FRAC_ONE * n) by (nonlinear_arith) requires f <= FRAC_ONE;
        vstd::arithmetic::div_mod::lemma_div_is_ordered((f * n) as int, FRAC_ONE * n, FRAC_ONE as int);
        vstd::arithmetic::div_mod::lemma_div_multiples_vanish(n as int, FRAC_ONE as int);
        assert(FRAC_ONE * n == n * FRAC_ONE) by (nonlinear_arith);
    }
    ((f as u64 * n as u64) / FRAC_ONE as u64) as u32
}

/// `r` is the part of `img` that starts at `(x, y)` and spans `w` by `h`, the four
/// of `f` as fractions of the image's size in units of `1 / FRAC_ONE`, rounded
/// down, with its origin at the bottom left.
pub open spec fn is_sub_img(img: PixImage, f: (u32, u32, u32, u32), r: PixImage) -> bool {
    &&& r.wf()
    &&& r.width == part(f.2 as int, img.width as int)
    &&& r.height == part(f.3 as int, img.height as int)
    &&& r.origin == ImageOriginPos::LeftBottom
    &&& forall|c: int, row: int| #![trigger r.pixel(c, row)]
        r.in_bounds(c, row) ==> r.pixel(c, row) == img.pixel(
            part(f.0 as int, img.width as int) + c, part(f.1 as int, img.height as int) + row)
}

/// The part of `img` that starts at `(x, y)` and spans `w` by `h`, all four given
/// as fractions of the image's size in units of `1 / FRAC_ONE`, rounded down.
pub fn sub_img(img: &PixImage, x: u32, y: u32, w: u32, h: u32) -> (r: PixImage)
    requires
        img.wf(),
        x <= FRAC_ONE && y <= FRAC_ONE && w <= FRAC_ONE && h <= FRAC_ONE,
        part(x as int, img.width as int) + part(w as int, img.width as int) <= img.width,
        part(y as int, img.height as int) + part(h as int, img.height as int) <= img.height,
    ensures
        is_sub_img(*img, (x, y, w, h), r),
{
    let sw = part_of(w, img.width);
    let sh = part_of(h, img.height);
    let x0 = part_of(x, img.width);
    let y0 = part_of(y, img.height);
    proof {
        assert(4 * sw * sh <= 4 * img.width * img.height) by (nonlinear_arith)
            requires sw <= img.width, sh <= img.height;
    }
    let mut sub = PixImage::new(sw, sh);
    let mut c: u32 = 0;
    while c < sw
        invariant
            img.wf(),
            sub.wf(),
            sub.width == sw,
            sub.height == sh,
            sub.origin == ImageOriginPos::LeftBottom,
            x0 + sw <= img.width,
            y0 + sh <= img.height,
            c <= sw,
            forall|c2: int, r2: int| #![trigger sub.pixel(c2, r2)]
                sub.in_bounds(c2, r2) && c2 < c ==> sub.pixel(c2, r2) == img.pixel(x0 + c2, y0 + r2),
        decreases sw - c,
    {
        let mut r: u32 = 0;
        while r < sh
            invariant
                img.wf(),
                sub.wf(),
                sub.width == sw,
                sub.height == sh,
                sub.origin == ImageOriginPos::LeftBottom,
                x0 + sw <= img.width,
                y0 + sh <= img.height,
                c < sw,
                r <= sh,
                forall|c2: int, r2: int| #![trigger sub.pixel(c2, r2)]
                    sub.in_bounds(c2, r2) && (c2 < c || (c2 == c && r2 < r))
                        ==> sub.pixel(c2, r2) == img.pixel(x0 + c2, y0 + r2),
            decreases sh - r,
        {
            let color = img.get_rgba(x0 + c, y0 + r);
            sub.set_rgba32(c, r, color);
            r = r + 1;
        }
        c = c + 1;
    }
    sub
}

} // verus!
