use vstd::prelude::*;
use crate::image::{opaque, PixImage, Rgba};
use crate::model::Model;
use crate::pipeline::{
    covered_pixel, depth_index, face_triangle, px_state, DEPTH_RANGE, raster_step, render_spec, Fragment, Shader, sample_info,
};
use crate::raster::{
    abs, affine_spec, area2, depth_spec, lemma_affine_bounds, perspective_spec, sample_ok, tri_ok, Bary,
    Triangle, W_LIMIT,
};

verus! {

/// The affine barycentric weights of a point of a non-degenerate triangle sum to
/// one, and where the point lies strictly inside, each lies strictly between zero
/// and one.
pub proof fn lemma_barycentric_partition(t: Triangle, sx: int, sy: int, q: int)
    requires
        tri_ok(t),
        sample_ok(sx, sy, q),
        area2(t) != 0,
    ensures
        affine_spec(t, sx, sy, q).den > 0,
        affine_spec(t, sx, sy, q).a + affine_spec(t, sx, sy, q).b + affine_spec(t, sx, sy, q).c
            == affine_spec(t, sx, sy, q).den,
        ({
            let w = affine_spec(t, sx, sy, q);
            w.a > 0 && w.b > 0 && w.c > 0 ==> 0 < w.a < w.den && 0 < w.b < w.den && 0 < w.c < w.den
        }),
{
    lemma_affine_bounds(t, sx, sy, q);
    let d = area2(t);
    let ea = crate::raster::edge_a(t, sx, sy, q);
    let eb = crate::raster::edge_b(t, sx, sy, q);
    let den = q * d;
    crate::raster::lemma_sign_mul(d, ea);
    crate::raster::lemma_sign_mul(d, eb);
    crate::raster::lemma_sign_mul(d, den - ea - eb);
    crate::raster::lemma_sign_mul(d, den);
    if d < 0 {
        assert(-1 * (q * d) > 0) by (nonlinear_arith) requires d < 0, q >= 1;
    } else {
        assert(1 * (q * d) > 0) by (nonlinear_arith) requires d > 0, q >= 1;
    }
}

/// Perspective-correct weights recover world-space proportions: where the affine
/// screen-space weights of a sample are `k * l_i * w_i` — as they are at the
/// projection of the world-space point with barycentric weights proportional to
/// `l_i` — the perspective-correct weights are proportional to `l_i`, not to the
/// screen-space weights.
pub proof fn lemma_perspective_correct(t: Triangle, w: Bary, k: int, l0: int, l1: int, l2: int)
    requires
        tri_ok(t),
        w.a == k * l0 * t.a.w,
        w.b == k * l1 * t.b.w,
        w.c == k * l2 * t.c.w,
        abs(w.a as int) <= 0x4000_0000_0000_0000,
        abs(w.b as int) <= 0x4000_0000_0000_0000,
        abs(w.c as int) <= 0x1_0000_0000_0000_0000,
    ensures
        ({
            let p = perspective_spec(t, w);
            let m = k * t.a.w * t.b.w * t.c.w;
            &&& p.a == l0 * m
            &&& p.b == l1 * m
            &&& p.c == l2 * m
            &&& p.den == (l0 + l1 + l2) * m
        }),
{
    let (wa, wb, wc) = (t.a.w as int, t.b.w as int, t.c.w as int);
    let wl = W_LIMIT as int;
    crate::raster::lemma_mul_abs(wb, wc, wl, wl);
    crate::raster::lemma_mul_abs(wa, wc, wl, wl);
    crate::raster::lemma_mul_abs(wa, wb, wl, wl);
    crate::raster::lemma_mul_abs(w.a as int, wb, 0x4000_0000_0000_0000, wl);
    crate::raster::lemma_mul_abs(w.b as int, wa, 0x4000_0000_0000_0000, wl);
    crate::raster::lemma_mul_abs(w.c as int, wa, 0x1_0000_0000_0000_0000, wl);
    crate::raster::lemma_mul_abs(w.a * wb, wc, 0x4000_0000_0000_0000 * wl, wl);
    crate::raster::lemma_mul_abs(w.b * wa, wc, 0x4000_0000_0000_0000 * wl, wl);
    crate::raster::lemma_mul_abs(w.c * wa, wb, 0x1_0000_0000_0000_0000 * wl, wl);
    let m = k * wa * wb * wc;
    assert(w.a * wb * wc == l0 * m) by (nonlinear_arith)
        requires w.a == k * l0 * wa, m == k * wa * wb * wc;
    assert(w.b * wa * wc == l1 * m) by (nonlinear_arith)
        requires w.b == k * l1 * wb, m == k * wa * wb * wc;
    assert(w.c * wa * wb == l2 * m) by (nonlinear_arith)
        requires w.c == k * l2 * wc, m == k * wa * wb * wc;
    assert(l0 * m + l1 * m + l2 * m == (l0 + l1 + l2) * m) by (nonlinear_arith);
}

/// Whether a face leaves an opaque color (or nothing) at pixel `(x, y)`, as opposed
/// to compositing over what is there.
pub open spec fn opaque_at<M: Model, S: Shader<M>>(shader: S, model: M, face: int, t: Triangle, width: u32, height: u32, x: int, y: int) -> bool {
    !(shader.fragment_spec(model, sample_info(t, face, width, height, x, y, 1)) is Rgba)
}

/// Depth testing makes the order of two opaque triangles irrelevant: drawing them
/// without supersampling in either order leaves the same color and depth at a pixel, provided their
/// depths there differ. Where both cover the pixel with a color, lie in front of
/// what it held and within the drawn depth range, the nearer one's color is what
/// remains.
pub proof fn lemma_depth_order_independent<M: Model, S: Shader<M>>(
    shader: S, model: M, width: u32, height: u32,
    f1: int, t1: Triangle, f2: int, t2: Triangle, n: int, x: int, y: int, old: (Rgba, i64),
)
    requires
        opaque_at(shader, model, f1, t1, width, height, x, y),
        opaque_at(shader, model, f2, t2, width, height, x, y),
        depth_spec(t1, x, y, 1) != depth_spec(t2, x, y, 1),
        n <= 1,
    ensures
        raster_step(shader, model, f2, t2, width, height, n, x, y,
            raster_step(shader, model, f1, t1, width, height, n, x, y, old))
        == raster_step(shader, model, f1, t1, width, height, n, x, y,
            raster_step(shader, model, f2, t2, width, height, n, x, y, old)),
        ({
            let i1 = sample_info(t1, f1, width, height, x, y, 1);
            let i2 = sample_info(t2, f2, width, height, x, y, 1);
            let d1 = depth_spec(t1, x, y, 1);
            let d2 = depth_spec(t2, x, y, 1);
            covered_pixel(t1, x, y) && covered_pixel(t2, x, y) && d1 > old.1 && d2 > old.1
                && -DEPTH_RANGE <= d1 <= DEPTH_RANGE && -DEPTH_RANGE <= d2 <= DEPTH_RANGE
                && shader.fragment_spec(model, i1) is Color && shader.fragment_spec(model, i2) is Color
                ==> raster_step(shader, model, f2, t2, width, height, n, x, y,
                    raster_step(shader, model, f1, t1, width, height, n, x, y, old)).0
                    == opaque(if d1 > d2 {
                        shader.fragment_spec(model, i1)->Color_0
                    } else {
                        shader.fragment_spec(model, i2)->Color_0
                    })
        }),
{
}

/// Rendering holds no state of its own: two renders of the same model with the
/// same shader over buffers that hold the same at a pixel leave the same there.
pub proof fn lemma_render_repeatable<M: Model, S: Shader<M>>(
    shader: S, model: M, n: int,
    img1: PixImage, depth1: Seq<i64>, img2: PixImage, depth2: Seq<i64>, x: int, y: int,
)
    requires
        img1.width == img2.width,
        img1.height == img2.height,
        px_state(img1, depth1, x, y) == px_state(img2, depth2, x, y),
    ensures
        render_spec(shader, model, img1.width, img1.height, n, x, y, px_state(img1, depth1, x, y), model.faces())
            == render_spec(shader, model, img2.width, img2.height, n, x, y, px_state(img2, depth2, x, y), model.faces()),
{
}

/// A summed-area table answers box sums exactly: for any rectangle of pixels, the
/// four lookups `S(c1, r1) - S(c0, r1) - S(c1, r0) + S(c0, r0)` of a well-formed
/// table equal the sum over the rectangle.
pub proof fn lemma_sat_box_sum(t: crate::sat::SummedAreaTable, k: int, c0: int, c1: int, r0: int, r1: int)
    requires
        t.wf(),
        0 <= k < 3,
        0 <= c0 <= c1 <= t.image.width,
        0 <= r0 <= r1 <= t.image.height,
    ensures
        ({
            let w = t.image.width + 1;
            crate::sat::rect_sum(t.image, k, c0, c1, r0, r1)
                == t.sums@[r1 * w + c1][k] - t.sums@[r1 * w + c0][k] - t.sums@[r0 * w + c1][k] + t.sums@[r0 * w + c0][k]
        }),
{
    crate::sat::lemma_box_sum(t.image, k, c0, c1, r0, r1);
}

/// Rendering does not depend on the order in which two opaque faces are
/// submitted: models `a` and `b` that hold the same two faces in opposite orders
/// (the same screen triangles, with the same fragment at the pixel) render the
/// same color and depth at a pixel where the two faces' depths differ.
pub proof fn lemma_render_order_independent<M: Model, S: Shader<M>>(
    shader: S, a: M, b: M, width: u32, height: u32, n: int, x: int, y: int,
    t1: Triangle, t2: Triangle, start: (Rgba, i64),
)
    requires
        n <= 1,
        a.faces() == 2,
        b.faces() == 2,
        face_triangle(shader, a, 0, width, height) == Some(t1),
        face_triangle(shader, a, 1, width, height) == Some(t2),
        face_triangle(shader, b, 0, width, height) == Some(t2),
        face_triangle(shader, b, 1, width, height) == Some(t1),
        shader.fragment_spec(a, sample_info(t1, 0, width, height, x, y, 1))
            == shader.fragment_spec(b, sample_info(t1, 1, width, height, x, y, 1)),
        shader.fragment_spec(a, sample_info(t2, 1, width, height, x, y, 1))
            == shader.fragment_spec(b, sample_info(t2, 0, width, height, x, y, 1)),
        opaque_at(shader, a, 0, t1, width, height, x, y),
        opaque_at(shader, a, 1, t2, width, height, x, y),
        depth_spec(t1, x, y, 1) != depth_spec(t2, x, y, 1),
    ensures
        render_spec(shader, a, width, height, n, x, y, start, a.faces())
            == render_spec(shader, b, width, height, n, x, y, start, b.faces()),
{
    let sa = raster_step(shader, a, 0, t1, width, height, n, x, y, start);
    let sb = raster_step(shader, b, 0, t2, width, height, n, x, y, start);
    assert(render_spec(shader, a, width, height, n, x, y, start, 0) == start);
    assert(render_spec(shader, b, width, height, n, x, y, start, 0) == start);
    assert(render_spec(shader, a, width, height, n, x, y, start, 1) == sa);
    assert(render_spec(shader, b, width, height, n, x, y, start, 1) == sb);
    assert(sb == raster_step(shader, a, 1, t2, width, height, n, x, y, start));
    assert(raster_step(shader, b, 1, t1, width, height, n, x, y, sb)
        == raster_step(shader, a, 0, t1, width, height, n, x, y, sb));
    lemma_depth_order_independent(shader, a, width, height, 0, t1, 1, t2, n, x, y, start);
}

} // verus!
