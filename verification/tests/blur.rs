use box_blur::engine::{apply, apply_with_default_workers, compute_band};
use box_blur::kernel::FilterKernel;
use box_blur::partition::band_bounds;
use box_blur::pixel::{FilterError, PixelBuffer, Rgba};

fn px(r: u8, g: u8, b: u8, a: u8) -> Rgba {
    Rgba { r, g, b, a }
}

fn buffer_from(width: u32, height: u32, pixels: Vec<Rgba>) -> PixelBuffer {
    assert_eq!(pixels.len(), (width as usize) * (height as usize));
    PixelBuffer::from_raw(width, height, pixels)
}

fn uniform(width: u32, height: u32, p: Rgba) -> PixelBuffer {
    let n = (width as usize) * (height as usize);
    buffer_from(width, height, vec![p; n])
}

/// A small 3x4 image with distinct pixels in every position.
fn gradient_3x4() -> PixelBuffer {
    let mut pixels = Vec::new();
    for y in 0..4u32 {
        for x in 0..3u32 {
            pixels.push(px(
                (10 * x + 1) as u8,
                (20 * y + 2) as u8,
                (7 * x + 11 * y) as u8,
                (x + y) as u8,
            ));
        }
    }
    buffer_from(3, 4, pixels)
}

#[test]
fn determinism_across_worker_counts() {
    let kernel = FilterKernel::box_blur();
    let src = gradient_3x4();
    let base = apply(&src, &kernel, 1).unwrap();
    for workers in [2usize, 3, 4, 7, 10] {
        let out = apply(&src, &kernel, workers).unwrap();
        assert_eq!(out.width, base.width);
        assert_eq!(out.height, base.height);
        assert_eq!(out.pixels, base.pixels);
    }
}

#[test]
fn dimensions_preserved() {
    let kernel = FilterKernel::box_blur();
    let src = uniform(7, 5, px(1, 2, 3, 4));
    let out = apply(&src, &kernel, 3).unwrap();
    assert_eq!(out.width, 7);
    assert_eq!(out.height, 5);
    assert_eq!(out.pixels.len(), 35);
}

#[test]
fn alpha_normalized() {
    let kernel = FilterKernel::box_blur();
    let src = gradient_3x4();
    let out = apply(&src, &kernel, 2).unwrap();
    for p in &out.pixels {
        assert_eq!(p.a, 255);
    }
}

#[test]
fn uniform_image_rgb_unchanged() {
    let kernel = FilterKernel::box_blur();
    let src = uniform(5, 4, px(90, 60, 30, 7));
    let out = apply(&src, &kernel, 2).unwrap();
    for p in &out.pixels {
        assert_eq!((p.r, p.g, p.b, p.a), (90, 60, 30, 255));
    }
}

#[test]
fn border_clamp_single_pixel() {
    let kernel = FilterKernel::box_blur();
    let src = uniform(1, 1, px(200, 100, 50, 3));
    let out = apply(&src, &kernel, 1).unwrap();
    assert_eq!(out.pixels, vec![px(200, 100, 50, 255)]);
}

#[test]
fn worker_count_exceeds_height() {
    let kernel = FilterKernel::box_blur();
    let src = gradient_3x4();
    let one = apply(&src, &kernel, 1).unwrap();
    let many = apply(&src, &kernel, 10).unwrap();
    assert_eq!(many.pixels, one.pixels);
}

#[test]
fn bands_cover_each_row_exactly_once() {
    let height = 4u32;
    let workers = 10u32;
    let mut owners = vec![0u32; height as usize];
    for i in 0..workers {
        let (start, end) = band_bounds(height, workers, i);
        assert!(start <= end && end <= height);
        for y in start..end {
            owners[y as usize] += 1;
        }
    }
    assert_eq!(owners, vec![1, 1, 1, 1]);
}

#[test]
fn concrete_three_by_three_red_center() {
    let kernel = FilterKernel::box_blur();
    let mut pixels = vec![px(0, 0, 0, 255); 9];
    pixels[4] = px(255, 0, 0, 255);
    let src = buffer_from(3, 3, pixels);
    let out = apply(&src, &kernel, 1).unwrap();
    // The center pixel averages 255 over nine samples: floor(255 / 9) = 28.
    assert_eq!(out.get(1, 1).unwrap(), px(28, 0, 0, 255));
    // Every other neighborhood, after clamping, samples the red center
    // exactly once as well, so the whole output is (28, 0, 0, 255).
    for p in &out.pixels {
        assert_eq!(*p, px(28, 0, 0, 255));
    }
}

#[test]
fn concrete_row_averages() {
    let kernel = FilterKernel::box_blur();
    let src = buffer_from(3, 1, vec![px(9, 0, 0, 0), px(18, 0, 0, 0), px(36, 0, 0, 0)]);
    let out = apply(&src, &kernel, 1).unwrap();
    // Each column's clamped 3x3 neighborhood collapses vertically onto the
    // single row, tripling a three-sample horizontal sum before dividing
    // by nine: floor(3 * 36 / 9), floor(3 * 63 / 9), floor(3 * 90 / 9).
    assert_eq!(out.pixels, vec![px(12, 0, 0, 255), px(21, 0, 0, 255), px(30, 0, 0, 255)]);
}

#[test]
fn empty_image_rejected() {
    let kernel = FilterKernel::box_blur();
    let zero_width = buffer_from(0, 5, Vec::new());
    let zero_height = buffer_from(5, 0, Vec::new());
    assert!(matches!(apply(&zero_width, &kernel, 4), Err(FilterError::EmptyImage)));
    assert!(matches!(apply(&zero_height, &kernel, 4), Err(FilterError::EmptyImage)));
}

#[test]
fn out_of_bounds_access_rejected() {
    let mut buf = uniform(2, 2, px(5, 6, 7, 8));
    assert_eq!(buf.get(2, 0), Err(FilterError::OutOfBounds));
    assert_eq!(buf.get(0, 2), Err(FilterError::OutOfBounds));
    assert_eq!(buf.set(9, 9, px(0, 0, 0, 0)), Err(FilterError::OutOfBounds));
    assert_eq!(buf.get(1, 1), Ok(px(5, 6, 7, 8)));
    assert_eq!(buf.set(1, 0, px(1, 1, 1, 1)), Ok(()));
    assert_eq!(buf.get(1, 0), Ok(px(1, 1, 1, 1)));
}

#[test]
fn radius_zero_is_identity_on_rgb() {
    let kernel = FilterKernel::new(0);
    let src = gradient_3x4();
    let out = apply(&src, &kernel, 2).unwrap();
    for (o, s) in out.pixels.iter().zip(src.pixels.iter()) {
        assert_eq!((o.r, o.g, o.b, o.a), (s.r, s.g, s.b, 255));
    }
}

#[test]
fn default_worker_count_matches_single_worker() {
    let kernel = FilterKernel::box_blur();
    let src = gradient_3x4();
    let defaulted = apply_with_default_workers(&src, &kernel).unwrap();
    let single = apply(&src, &kernel, 1).unwrap();
    assert_eq!(defaulted.pixels, single.pixels);
}

#[test]
fn compute_band_matches_full_output() {
    let kernel = FilterKernel::box_blur();
    let src = gradient_3x4();
    let full = apply(&src, &kernel, 1).unwrap();
    let band = compute_band(&src, &kernel, 1, 3);
    assert_eq!(band.len(), 6);
    assert_eq!(&band[..], &full.pixels[3..9]);
}

#[test]
fn dimensions_accessor_reports_size() {
    let buf = PixelBuffer::new(6, 2);
    assert_eq!(buf.dimensions(), (6, 2));
    assert_eq!(buf.get(0, 0), Ok(px(0, 0, 0, 0)));
}
