use vstd::prelude::*;
use vstd::arithmetic::div_mod::{
    lemma_div_is_ordered,
    lemma_div_multiples_vanish,
    lemma_div_pos_is_pos,
};

use crate::kernel::FilterKernel;
use crate::kernel::MAX_RADIUS;
use crate::partition::band_bounds;
use crate::partition::lemma_chunk_properties;
use crate::partition::spec_band_start;
use crate::pixel::lemma_row_major_lt;
use crate::pixel::FilterError;
use crate::pixel::PixelBuffer;
use crate::pixel::Rgba;

verus! {

/// v clamped to [0, hi]: edge replication, not wraparound or zero padding.
pub open spec fn clamp_to(v: int, hi: int) -> int {
    if v < 0 {
        0
    } else if v > hi {
        hi
    } else {
        v
    }
}

/// Channel c of a pixel: 0 is red, 1 is green, any other value blue.
pub open spec fn channel(p: Rgba, c: int) -> int {
    if c == 0 {
        p.r as int
    } else if c == 1 {
        p.g as int
    } else {
        p.b as int
    }
}

/// The neighborhood sample of (x, y) at offset (dx, dy); each coordinate
/// is clamped independently to the image.
pub open spec fn sample(buf: PixelBuffer, x: int, y: int, dx: int, dy: int) -> Rgba {
    buf.spec_index(
        clamp_to(x + dx, buf.width as int - 1),
        clamp_to(y + dy, buf.height as int - 1),
    )
}

/// Sum of channel c over the first n samples of the kernel row at vertical
/// offset dy: horizontal offsets j - radius for j in [0, n).
pub open spec fn row_sum(
    buf: PixelBuffer,
    x: int,
    y: int,
    dy: int,
    radius: int,
    n: nat,
    c: int,
) -> int
    decreases n,
{
    if n == 0 {
        0
    } else {
        row_sum(buf, x, y, dy, radius, (n - 1) as nat, c) + channel(
            sample(buf, x, y, n - 1 - radius, dy),
            c,
        )
    }
}

/// Sum of channel c over the first m full kernel rows: vertical offsets
/// i - radius for i in [0, m), each row of 2 * radius + 1 samples.
pub open spec fn box_sum(buf: PixelBuffer, x: int, y: int, radius: int, m: nat, c: int) -> int
    decreases m,
{
    if m == 0 {
        0
    } else {
        box_sum(buf, x, y, radius, (m - 1) as nat, c) + row_sum(
            buf,
            x,
            y,
            m - 1 - radius,
            radius,
            (2 * radius + 1) as nat,
            c,
        )
    }
}

/// The blurred value of channel c at (x, y): the whole neighborhood sum
/// divided (flooring) by the number of samples.
pub open spec fn blur_channel(buf: PixelBuffer, x: int, y: int, radius: int, c: int) -> int {
    box_sum(buf, x, y, radius, (2 * radius + 1) as nat, c) / ((2 * radius + 1) * (2 * radius + 1))
}

/// The blurred pixel at (x, y): averaged RGB, alpha forced to 255.
pub open spec fn blurred_pixel(buf: PixelBuffer, x: int, y: int, radius: int) -> Rgba {
    Rgba {
        r: blur_channel(buf, x, y, radius, 0) as u8,
        g: blur_channel(buf, x, y, radius, 1) as u8,
        b: blur_channel(buf, x, y, radius, 2) as u8,
        a: 255,
    }
}

/// out is the box blur of src at the given radius: same dimensions, and
/// every pixel is the blurred pixel of src at its coordinate.
pub open spec fn is_blur_of(out: PixelBuffer, src: PixelBuffer, radius: int) -> bool {
    &&& out.wf()
    &&& out.width == src.width
    &&& out.height == src.height
    &&& forall|x: int, y: int|
        0 <= x < src.width as int && 0 <= y < src.height as int ==> out.spec_index(x, y)
            == blurred_pixel(src, x, y, radius)
}

/// A partial kernel row sums n samples of one channel, so it lies in
/// [0, 255 * n].
pub proof fn lemma_row_sum_bounds(
    buf: PixelBuffer,
    x: int,
    y: int,
    dy: int,
    radius: int,
    n: nat,
    c: int,
)
    ensures
        0 <= row_sum(buf, x, y, dy, radius, n, c) <= 255 * n,
    decreases n,
{
    if n > 0 {
        lemma_row_sum_bounds(buf, x, y, dy, radius, (n - 1) as nat, c);
    }
}

/// A partial neighborhood sum over m full rows lies in
/// [0, 255 * (m * (2 * radius + 1))].
pub proof fn lemma_box_sum_bounds(
    buf: PixelBuffer,
    x: int,
    y: int,
    radius: int,
    m: nat,
    c: int,
)
    requires
        radius >= 0,
    ensures
        0 <= box_sum(buf, x, y, radius, m, c) <= 255 * (m * (2 * radius + 1)),
    decreases m,
{
    let s = 2 * radius + 1;
    if m > 0 {
        let mm = m as int;
        lemma_box_sum_bounds(buf, x, y, radius, (m - 1) as nat, c);
        lemma_row_sum_bounds(buf, x, y, mm - 1 - radius, radius, s as nat, c);
        assert(255 * ((mm - 1) * s) + 255 * s == 255 * (mm * s)) by (nonlinear_arith);
    } else {
        assert(255 * (0 * s) == 0) by (nonlinear_arith);
    }
}

/// A blurred channel value is itself a channel value: it lies in [0, 255].
pub proof fn lemma_blur_channel_bounds(buf: PixelBuffer, x: int, y: int, radius: int, c: int)
    requires
        radius >= 0,
    ensures
        0 <= blur_channel(buf, x, y, radius, c) <= 255,
{
    let s = 2 * radius + 1;
    let d = s * s;
    let sum = box_sum(buf, x, y, radius, s as nat, c);
    lemma_box_sum_bounds(buf, x, y, radius, s as nat, c);
    assert(d >= 1) by (nonlinear_arith)
        requires
            s >= 1,
            d == s * s,
    ;
    lemma_div_pos_is_pos(sum, d);
    lemma_div_is_ordered(sum, 255 * d, d);
    lemma_div_multiples_vanish(255, d);
}

/// The three channel sums of one kernel row of the neighborhood of (x, y):
/// the row at vertical offset dy_i - radius, all 2 * radius + 1 samples.
fn row_sums(src: &PixelBuffer, radius: u32, x: u32, y: u32, dy_i: u32) -> (sums: (u64, u64, u64))
    requires
        src.wf(),
        1 <= src.width,
        1 <= src.height,
        x < src.width,
        y < src.height,
        radius <= MAX_RADIUS,
        dy_i <= 2 * radius,
    ensures
        sums.0 == row_sum(
            *src,
            x as int,
            y as int,
            dy_i as int - radius as int,
            radius as int,
            (2 * radius as int + 1) as nat,
            0,
        ),
        sums.1 == row_sum(
            *src,
            x as int,
            y as int,
            dy_i as int - radius as int,
            radius as int,
            (2 * radius as int + 1) as nat,
            1,
        ),
        sums.2 == row_sum(
            *src,
            x as int,
            y as int,
            dy_i as int - radius as int,
            radius as int,
            (2 * radius as int + 1) as nat,
            2,
        ),
{
    let ghost dy: int = dy_i as int - radius as int;
    let side: u32 = 2 * radius + 1;

    let yy: u64 = y as u64 + dy_i as u64;
    let hi_y: u64 = (src.height - 1) as u64;
    let ny64: u64 = if yy < radius as u64 {
        0
    } else if yy - (radius as u64) > hi_y {
        hi_y
    } else {
        yy - (radius as u64)
    };
    let ny: u32 = ny64 as u32;
    assert(ny as int == clamp_to(y as int + dy, src.height as int - 1));

    let hi_x: u64 = (src.width - 1) as u64;
    let mut sr: u64 = 0;
    let mut sg: u64 = 0;
    let mut sb: u64 = 0;
    let mut j: u32 = 0;
    while j < side
        invariant
            src.wf(),
            1 <= src.width,
            1 <= src.height,
            x < src.width,
            y < src.height,
            radius <= MAX_RADIUS,
            side == 2 * radius + 1,
            hi_x == src.width as int - 1,
            ny as int == clamp_to(y as int + dy, src.height as int - 1),
            j <= side,
            sr == row_sum(*src, x as int, y as int, dy, radius as int, j as nat, 0),
            sg == row_sum(*src, x as int, y as int, dy, radius as int, j as nat, 1),
            sb == row_sum(*src, x as int, y as int, dy, radius as int, j as nat, 2),
            sr <= 255 * j,
            sg <= 255 * j,
            sb <= 255 * j,
        decreases side - j,
    {
        let xx: u64 = x as u64 + j as u64;
        let nx64: u64 = if xx < radius as u64 {
            0
        } else if xx - (radius as u64) > hi_x {
            hi_x
        } else {
            xx - (radius as u64)
        };
        let nx: u32 = nx64 as u32;
        assert(nx as int == clamp_to(x as int + (j as int - radius as int), src.width as int - 1));
        let p = src.at(nx, ny);
        proof {
            assert(p == sample(*src, x as int, y as int, j as int - radius as int, dy));
        }
        sr = sr + p.r as u64;
        sg = sg + p.g as u64;
        sb = sb + p.b as u64;
        j = j + 1;
    }
    (sr, sg, sb)
}

/// The blurred pixel at (x, y): the box average of the clamped
/// neighborhood, alpha forced to 255.
pub fn blur_pixel(src: &PixelBuffer, kernel: &FilterKernel, x: u32, y: u32) -> (p: Rgba)
    requires
        src.wf(),
        kernel.wf(),
        1 <= src.width,
        1 <= src.height,
        x < src.width,
        y < src.height,
    ensures
        p == blurred_pixel(*src, x as int, y as int, kernel.radius as int),
{
    let radius = kernel.radius;
    let side: u32 = 2 * radius + 1;
    let mut sr: u64 = 0;
    let mut sg: u64 = 0;
    let mut sb: u64 = 0;
    let mut i: u32 = 0;
    while i < side
        invariant
            src.wf(),
            1 <= src.width,
            1 <= src.height,
            x < src.width,
            y < src.height,
            radius <= MAX_RADIUS,
            side == 2 * radius + 1,
            i <= side,
            sr == box_sum(*src, x as int, y as int, radius as int, i as nat, 0),
            sg == box_sum(*src, x as int, y as int, radius as int, i as nat, 1),
            sb == box_sum(*src, x as int, y as int, radius as int, i as nat, 2),
        decreases side - i,
    {
        proof {
            lemma_box_sum_bounds(*src, x as int, y as int, radius as int, i as nat, 0);
            lemma_box_sum_bounds(*src, x as int, y as int, radius as int, i as nat, 1);
            lemma_box_sum_bounds(*src, x as int, y as int, radius as int, i as nat, 2);
            lemma_row_sum_bounds(
                *src,
                x as int,
                y as int,
                i as int - radius as int,
                radius as int,
                side as nat,
                0,
            );
            lemma_row_sum_bounds(
                *src,
                x as int,
                y as int,
                i as int - radius as int,
                radius as int,
                side as nat,
                1,
            );
            lemma_row_sum_bounds(
                *src,
                x as int,
                y as int,
                i as int - radius as int,
                radius as int,
                side as nat,
                2,
            );
            assert(i as int * side as int <= 0x1_0000 * 0x1_0000) by (nonlinear_arith)
                requires
                    0 <= i as int <= 0x1_0000,
                    0 <= side as int <= 0x1_0000,
            ;
        }
        let (rr, rg, rb) = row_sums(src, radius, x, y, i);
        sr = sr + rr;
        sg = sg + rg;
        sb = sb + rb;
        i = i + 1;
    }
    proof {
        lemma_blur_channel_bounds(*src, x as int, y as int, radius as int, 0);
        lemma_blur_channel_bounds(*src, x as int, y as int, radius as int, 1);
        lemma_blur_channel_bounds(*src, x as int, y as int, radius as int, 2);
    }
    let d: u64 = kernel.divisor();
    let pr: u8 = (sr / d) as u8;
    let pg: u8 = (sg / d) as u8;
    let pb: u8 = (sb / d) as u8;
    Rgba { r: pr, g: pg, b: pb, a: 255 }
}

/// Blurs the rows [start_row, end_row) of src: the output region of one
/// work assignment, row-major. Only the immutable source is read, so any
/// number of bands can be computed concurrently.
pub fn compute_band(
    src: &PixelBuffer,
    kernel: &FilterKernel,
    start_row: u32,
    end_row: u32,
) -> (band: Vec<Rgba>)
    requires
        src.wf(),
        kernel.wf(),
        1 <= src.width,
        1 <= src.height,
        start_row <= end_row,
        end_row <= src.height,
    ensures
        band@.len() == (end_row - start_row) * src.width as int,
        forall|x: int, y: int|
            0 <= x < src.width as int && start_row as int <= y < end_row as int ==> band@[(y
                - start_row as int) * src.width as int + x] == blurred_pixel(
                *src,
                x,
                y,
                kernel.radius as int,
            ),
{
    let w: u32 = src.width;
    let mut band: Vec<Rgba> = Vec::new();
    let mut y: u32 = start_row;
    while y < end_row
        invariant
            src.wf(),
            kernel.wf(),
            1 <= src.width,
            1 <= src.height,
            w == src.width,
            start_row <= y <= end_row,
            end_row <= src.height,
            band@.len() == (y - start_row) * w as int,
            forall|xx: int, yy: int|
                0 <= xx < w as int && start_row as int <= yy < y as int ==> band@[(yy
                    - start_row as int) * w as int + xx] == blurred_pixel(
                    *src,
                    xx,
                    yy,
                    kernel.radius as int,
                ),
        decreases end_row - y,
    {
        let mut x: u32 = 0;
        while x < w
            invariant
                src.wf(),
                kernel.wf(),
                1 <= src.width,
                1 <= src.height,
                w == src.width,
                start_row <= y < end_row,
                end_row <= src.height,
                x <= w,
                band@.len() == (y - start_row) * w as int + x as int,
                forall|xx: int, yy: int|
                    0 <= xx < w as int && start_row as int <= yy < y as int ==> band@[(yy
                        - start_row as int) * w as int + xx] == blurred_pixel(
                        *src,
                        xx,
                        yy,
                        kernel.radius as int,
                    ),
                forall|xx: int|
                    0 <= xx < x as int ==> band@[(y - start_row as int) * w as int + xx]
                        == blurred_pixel(*src, xx, y as int, kernel.radius as int),
            decreases w - x,
        {
            let p = blur_pixel(src, kernel, x, y);
            let ghost band0 = band@;
            band.push(p);
            proof {
                assert(band@ == band0.push(p));
                assert forall|xx: int, yy: int|
                    0 <= xx < w as int && start_row as int <= yy < y as int implies band@[(yy
                    - start_row as int) * w as int + xx] == blurred_pixel(
                    *src,
                    xx,
                    yy,
                    kernel.radius as int,
                ) by {
                    lemma_row_major_lt(
                        w as int,
                        xx,
                        yy - start_row as int,
                        x as int,
                        y as int - start_row as int,
                    );
                }
            }
            x = x + 1;
        }
        proof {
            assert((y as int + 1 - start_row as int) * w as int == (y as int - start_row as int)
                * w as int + w as int) by (nonlinear_arith);
        }
        y = y + 1;
    }
    band
}

/// Applies the box filter to source: rejects an empty image, partitions
/// the rows into one contiguous band per worker, blurs every band from
/// the immutable source, and assembles the bands in row order. The output
/// depends only on source and kernel, never on the worker count.
pub fn apply(source: &PixelBuffer, kernel: &FilterKernel, worker_count: usize) -> (result: Result<
    PixelBuffer,
    FilterError,
>)
    requires
        source.wf(),
        kernel.wf(),
        1 <= worker_count,
    ensures
        match result {
            Ok(out) => 1 <= source.width && 1 <= source.height && is_blur_of(
                out,
                *source,
                kernel.radius as int,
            ),
            Err(e) => e == FilterError::EmptyImage && (source.width == 0 || source.height == 0),
        },
{
    let (w, h) = source.dimensions();
    if w == 0 || h == 0 {
        return Err(FilterError::EmptyImage);
    }
    // One band per worker; workers past the row count would own empty
    // bands, so the count is clamped to the height.
    let workers: u32 = if worker_count >= h as usize {
        h
    } else {
        worker_count as u32
    };
    let mut pixels: Vec<Rgba> = Vec::new();
    let mut i: u32 = 0;
    proof {
        assert(0 * crate::partition::spec_chunk(h as int, workers as int) == 0);
        assert(spec_band_start(h as int, workers as int, 0) == 0);
    }
    while i < workers
        invariant
            source.wf(),
            kernel.wf(),
            w == source.width,
            h == source.height,
            1 <= w,
            1 <= h,
            1 <= workers <= h,
            i <= workers,
            pixels@.len() == spec_band_start(h as int, workers as int, i as int) * w as int,
            forall|xx: int, yy: int|
                0 <= xx < w as int && 0 <= yy < spec_band_start(h as int, workers as int, i as int)
                    ==> pixels@[yy * w as int + xx] == blurred_pixel(
                    *source,
                    xx,
                    yy,
                    kernel.radius as int,
                ),
        decreases workers - i,
    {
        let (bs, be) = band_bounds(h, workers, i);
        let ghost lo = bs as int;
        let ghost hi = be as int;
        let mut band = compute_band(source, kernel, bs, be);
        let ghost pixels0 = pixels@;
        let ghost band0 = band@;
        pixels.append(&mut band);
        proof {
            assert(pixels@ == pixels0 + band0);
            assert forall|xx: int, yy: int|
                0 <= xx < w as int && 0 <= yy < hi implies pixels@[yy * w as int + xx]
                == blurred_pixel(*source, xx, yy, kernel.radius as int) by {
                if yy < lo {
                    lemma_row_major_lt(w as int, xx, yy, 0, lo);
                    assert(pixels@[yy * w as int + xx] == pixels0[yy * w as int + xx]);
                } else {
                    lemma_row_major_lt(w as int, xx, yy - lo, 0, hi - lo);
                    assert(yy * w as int == lo * w as int + (yy - lo) * w as int)
                        by (nonlinear_arith);
                    assert(pixels@[yy * w as int + xx] == band0[(yy - lo) * w as int + xx]);
                }
            }
            assert(hi * w as int == lo * w as int + (hi - lo) * w as int) by (nonlinear_arith);
        }
        i = i + 1;
    }
    proof {
        lemma_chunk_properties(h as int, workers as int);
        assert(spec_band_start(h as int, workers as int, workers as int) == h as int);
        assert(h as int * w as int == w as int * h as int) by (nonlinear_arith);
    }
    let out = PixelBuffer::from_raw(w, h, pixels);
    Ok(out)
}

/// Relies on num_cpus::get: the number of logical CPUs of the host,
/// documented to return at least 1.
#[verifier::external_body]
fn host_parallelism() -> (n: usize)
    ensures
        1 <= n,
{
    num_cpus::get()
}

/// Applies the box filter with the default worker count: the available
/// parallelism of the host. The output does not depend on the worker
/// count, so the contract is exactly that of apply.
pub fn apply_with_default_workers(source: &PixelBuffer, kernel: &FilterKernel) -> (result: Result<
    PixelBuffer,
    FilterError,
>)
    requires
        source.wf(),
        kernel.wf(),
    ensures
        match result {
            Ok(out) => 1 <= source.width && 1 <= source.height && is_blur_of(
                out,
                *source,
                kernel.radius as int,
            ),
            Err(e) => e == FilterError::EmptyImage && (source.width == 0 || source.height == 0),
        },
{
    let workers = host_parallelism();
    apply(source, kernel, workers)
}

} // verus!
