use vstd::prelude::*;
use vstd::arithmetic::div_mod::{
    lemma_div_multiples_vanish,
    lemma_div_pos_is_pos,
    lemma_remainder,
};
use vstd::arithmetic::mul::lemma_mul_inequality;

use crate::engine::blur_channel;
use crate::engine::box_sum;
use crate::engine::channel;
use crate::engine::is_blur_of;
use crate::engine::row_sum;
use crate::pixel::PixelBuffer;

verus! {

/// Determinism: the blur of a source at a radius is one image. Any two
/// outputs of the filter on the same source and kernel are identical in
/// dimensions and in every byte of pixel storage, however the work was
/// split across workers.
pub proof fn lemma_apply_deterministic(
    src: PixelBuffer,
    radius: int,
    out1: PixelBuffer,
    out2: PixelBuffer,
)
    requires
        is_blur_of(out1, src, radius),
        is_blur_of(out2, src, radius),
    ensures
        out1.width == out2.width,
        out1.height == out2.height,
        out1.pixels@ == out2.pixels@,
{
    let w = src.width as int;
    let h = src.height as int;
    assert forall|k: int| 0 <= k < out1.pixels@.len() implies out1.pixels@[k]
        == out2.pixels@[k] by {
        assert(w >= 1 && h >= 1) by (nonlinear_arith)
            requires
                w >= 0,
                h >= 0,
                w * h >= 1,
        ;
        let y = k / w;
        let x = k - y * w;
        lemma_remainder(k, w);
        lemma_div_pos_is_pos(k, w);
        if y >= h {
            lemma_mul_inequality(h, y, w);
            assert(h * w == w * h) by (nonlinear_arith);
            assert(false);
        }
        assert(out1.spec_index(x, y) == out2.spec_index(x, y));
    }
    assert(out1.pixels@ =~= out2.pixels@);
}

/// Alpha normalization: every pixel of the output has alpha 255,
/// whatever the alpha channels of the input were.
pub proof fn lemma_alpha_normalized(out: PixelBuffer, src: PixelBuffer, radius: int, x: int, y: int)
    requires
        is_blur_of(out, src, radius),
        0 <= x < src.width as int,
        0 <= y < src.height as int,
    ensures
        out.spec_index(x, y).a == 255,
{
}

/// A kernel row over an image whose channel c is the constant v sums to
/// the constant times the number of samples.
proof fn lemma_row_sum_const(
    buf: PixelBuffer,
    x: int,
    y: int,
    dy: int,
    radius: int,
    n: nat,
    c: int,
    v: int,
)
    requires
        1 <= buf.width,
        1 <= buf.height,
        forall|px: int, py: int|
            0 <= px < buf.width as int && 0 <= py < buf.height as int ==> channel(
                #[trigger] buf.spec_index(px, py),
                c,
            ) == v,
    ensures
        row_sum(buf, x, y, dy, radius, n, c) == n * v,
    decreases n,
{
    if n == 0 {
    } else {
        lemma_row_sum_const(buf, x, y, dy, radius, (n - 1) as nat, c, v);
        assert((n - 1) as int * v + v == n as int * v) by (nonlinear_arith);
    }
}

/// A whole neighborhood over an image whose channel c is the constant v
/// sums to the constant times the number of samples.
proof fn lemma_box_sum_const(
    buf: PixelBuffer,
    x: int,
    y: int,
    radius: int,
    m: nat,
    c: int,
    v: int,
)
    requires
        radius >= 0,
        1 <= buf.width,
        1 <= buf.height,
        forall|px: int, py: int|
            0 <= px < buf.width as int && 0 <= py < buf.height as int ==> channel(
                #[trigger] buf.spec_index(px, py),
                c,
            ) == v,
    ensures
        box_sum(buf, x, y, radius, m, c) == m * ((2 * radius + 1) * v),
    decreases m,
{
    let s = 2 * radius + 1;
    if m == 0 {
        assert(0 * (s * v) == 0) by (nonlinear_arith);
    } else {
        lemma_box_sum_const(buf, x, y, radius, (m - 1) as nat, c, v);
        lemma_row_sum_const(buf, x, y, m - 1 - radius, radius, s as nat, c, v);
        assert((m - 1) as int * (s * v) + s as int * v == m as int * (s * v)) by (nonlinear_arith);
    }
}

/// Averaging a constant channel gives the constant back.
proof fn lemma_uniform_channel(buf: PixelBuffer, x: int, y: int, radius: int, c: int, v: int)
    requires
        radius >= 0,
        1 <= buf.width,
        1 <= buf.height,
        forall|px: int, py: int|
            0 <= px < buf.width as int && 0 <= py < buf.height as int ==> channel(
                #[trigger] buf.spec_index(px, py),
                c,
            ) == v,
    ensures
        blur_channel(buf, x, y, radius, c) == v,
{
    let s = 2 * radius + 1;
    let d = s * s;
    lemma_box_sum_const(buf, x, y, radius, s as nat, c, v);
    assert(d >= 1) by (nonlinear_arith)
        requires
            s >= 1,
            d == s * s,
    ;
    assert(s * (s * v) == d * v) by (nonlinear_arith)
        requires
            d == s * s,
    ;
    lemma_div_multiples_vanish(v, d);
}

/// Identity on a uniform image: if every pixel of the source carries the
/// same RGB value, the output carries that RGB value unchanged at every
/// pixel, with alpha forced to 255.
pub proof fn lemma_uniform_identity(
    out: PixelBuffer,
    src: PixelBuffer,
    radius: int,
    x: int,
    y: int,
)
    requires
        is_blur_of(out, src, radius),
        radius >= 0,
        1 <= src.width,
        1 <= src.height,
        0 <= x < src.width as int,
        0 <= y < src.height as int,
        forall|px: int, py: int|
            0 <= px < src.width as int && 0 <= py < src.height as int ==> (
            #[trigger] src.spec_index(px, py)).r == src.spec_index(0, 0).r && src.spec_index(
                px,
                py,
            ).g == src.spec_index(0, 0).g && src.spec_index(px, py).b == src.spec_index(0, 0).b,
    ensures
        out.spec_index(x, y).r == src.spec_index(x, y).r,
        out.spec_index(x, y).g == src.spec_index(x, y).g,
        out.spec_index(x, y).b == src.spec_index(x, y).b,
        out.spec_index(x, y).a == 255,
{
    let vr = src.spec_index(0, 0).r as int;
    let vg = src.spec_index(0, 0).g as int;
    let vb = src.spec_index(0, 0).b as int;
    assert forall|px: int, py: int|
        0 <= px < src.width as int && 0 <= py < src.height as int implies channel(
        #[trigger] src.spec_index(px, py),
        0,
    ) == vr && channel(src.spec_index(px, py), 1) == vg && channel(src.spec_index(px, py), 2)
        == vb by {}
    lemma_uniform_channel(src, x, y, radius, 0, vr);
    lemma_uniform_channel(src, x, y, radius, 1, vg);
    lemma_uniform_channel(src, x, y, radius, 2, vb);
}

/// Border clamp on the smallest image: for a 1x1 source all nine clamped
/// samples collapse to the single pixel, so the output pixel carries the
/// input pixel's RGB unchanged, with alpha 255.
pub proof fn lemma_unit_image_identity(out: PixelBuffer, src: PixelBuffer, radius: int)
    requires
        is_blur_of(out, src, radius),
        radius >= 0,
        src.width == 1,
        src.height == 1,
    ensures
        out.spec_index(0, 0).r == src.spec_index(0, 0).r,
        out.spec_index(0, 0).g == src.spec_index(0, 0).g,
        out.spec_index(0, 0).b == src.spec_index(0, 0).b,
        out.spec_index(0, 0).a == 255,
{
    lemma_uniform_identity(out, src, radius, 0, 0);
}

} // verus!
