use vstd::prelude::*;
use vstd::arithmetic::div_mod::{
    lemma_basic_div,
    lemma_div_is_ordered,
    lemma_div_multiples_vanish,
    lemma_div_pos_is_pos,
    lemma_remainder,
    lemma_remainder_lower,
};
use vstd::arithmetic::mul::lemma_mul_inequality;

verus! {

/// Rows per band: the ceiling of height / workers, so that workers
/// contiguous bands cover the whole image.
pub open spec fn spec_chunk(height: int, workers: int) -> int {
    (height + workers - 1) / workers
}

/// The first row of band i. A band whose nominal start lies past the last
/// row is empty and starts (and ends) at height.
pub open spec fn spec_band_start(height: int, workers: int, i: int) -> int {
    if i * spec_chunk(height, workers) < height {
        i * spec_chunk(height, workers)
    } else {
        height
    }
}

/// One past the last row of band i: exactly where band i + 1 starts, so
/// consecutive bands are contiguous by construction.
pub open spec fn spec_band_end(height: int, workers: int, i: int) -> int {
    spec_band_start(height, workers, i + 1)
}

/// The band that owns row y.
pub open spec fn row_band(height: int, workers: int, y: int) -> int {
    y / spec_chunk(height, workers)
}

/// The chunk is at least one row and at most the whole image, and the
/// workers' chunks together cover every row.
pub proof fn lemma_chunk_properties(height: int, workers: int)
    requires
        1 <= height,
        1 <= workers,
    ensures
        1 <= spec_chunk(height, workers) <= height,
        height <= workers * spec_chunk(height, workers),
{
    let h = height;
    let w = workers;
    let q = spec_chunk(h, w);
    lemma_div_is_ordered(w, h + w - 1, w);
    lemma_div_multiples_vanish(1, w);
    assert(w * 1 == w);
    assert(1 <= q);
    lemma_remainder_lower(h + w - 1, w);
    assert(q * w <= h + w - 1);
    if q > h {
        lemma_mul_inequality(h + 1, q, w);
        assert((h + 1) * w == h * w + w) by (nonlinear_arith);
        lemma_mul_inequality(1, w, h);
        assert(1 * h == h);
        assert(false);
    }
    lemma_remainder(h + w - 1, w);
    assert(h + w - 1 - (h + w - 1) / w * w < w);
    assert(q * w > h - 1);
    assert(w * q == q * w) by (nonlinear_arith);
}

/// Every row of the image lies in exactly one band: the bands of workers
/// 0 .. worker_count partition [0, height) with no overlap and no gap.
pub proof fn lemma_bands_partition(height: int, workers: int, y: int)
    requires
        1 <= workers,
        0 <= y < height,
    ensures
        0 <= row_band(height, workers, y) < workers,
        spec_band_start(height, workers, row_band(height, workers, y)) <= y,
        y < spec_band_end(height, workers, row_band(height, workers, y)),
        forall|i: int|
            0 <= i < workers && i != row_band(height, workers, y) ==> !(#[trigger] spec_band_start(
                height,
                workers,
                i,
            ) <= y < spec_band_end(height, workers, i)),
{
    let h = height;
    let w = workers;
    let q = spec_chunk(h, w);
    let b = row_band(h, w, y);
    lemma_chunk_properties(h, w);
    lemma_div_pos_is_pos(y, q);
    lemma_remainder(y, q);
    assert(y / q * q == b * q);
    assert(b * q <= y);
    assert(y < b * q + q);
    assert((b + 1) * q == b * q + q) by (nonlinear_arith);
    if b >= w {
        lemma_mul_inequality(w, b, q);
        assert(false);
    }
    assert forall|i: int|
        0 <= i < w && i != b implies !(#[trigger] spec_band_start(h, w, i) <= y < spec_band_end(
        h,
        w,
        i,
    )) by {
        if i < b {
            lemma_mul_inequality(i + 1, b, q);
        } else {
            lemma_mul_inequality(b + 1, i, q);
        }
    }
}

/// The row range [start, end) of band i, given the image height and the
/// worker count.
pub fn band_bounds(height: u32, workers: u32, i: u32) -> (bounds: (u32, u32))
    requires
        1 <= workers,
    ensures
        bounds.0 == spec_band_start(height as int, workers as int, i as int),
        bounds.1 == spec_band_end(height as int, workers as int, i as int),
        bounds.0 <= bounds.1 <= height,
{
    let chunk: u64 = (height as u64 + workers as u64 - 1) / (workers as u64);
    proof {
        if height >= 1 {
            lemma_chunk_properties(height as int, workers as int);
        } else {
            lemma_basic_div(workers as int - 1, workers as int);
        }
        assert(chunk <= height);
        assert(i as int * chunk as int <= 0xFFFF_FFFF * 0xFFFF_FFFF) by (nonlinear_arith)
            requires
                0 <= i as int <= 0xFFFF_FFFF,
                0 <= chunk as int <= 0xFFFF_FFFF,
        ;
        assert((i as int + 1) * chunk as int <= 0x1_0000_0000 * 0xFFFF_FFFF) by (nonlinear_arith)
            requires
                0 <= i as int + 1 <= 0x1_0000_0000,
                0 <= chunk as int <= 0xFFFF_FFFF,
        ;
        lemma_mul_inequality(i as int, i as int + 1, chunk as int);
    }
    let lo: u64 = (i as u64) * chunk;
    let start: u32 = if lo < height as u64 {
        lo as u32
    } else {
        height
    };
    let hi: u64 = (i as u64 + 1) * chunk;
    let end: u32 = if hi < height as u64 {
        hi as u32
    } else {
        height
    };
    (start, end)
}

} // verus!
