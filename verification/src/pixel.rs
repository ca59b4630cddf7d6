use vstd::prelude::*;

verus! {

/// One RGBA pixel, 8 bits per channel.
#[derive(Clone, Copy, PartialEq, Eq, Structural, Debug)]
pub struct Rgba {
    pub r: u8,
    pub g: u8,
    pub b: u8,
    pub a: u8,
}

/// The errors of the filtering core. `DecodeError` and `EncodeError` are
/// reserved for the codec boundary around the core; the core itself only
/// produces `EmptyImage` and `OutOfBounds`.
#[derive(Clone, Copy, PartialEq, Eq, Structural, Debug)]
pub enum FilterError {
    /// The source image has zero width or zero height.
    EmptyImage,
    /// A coordinate access outside the buffer.
    OutOfBounds,
    /// The input file could not be decoded into a pixel buffer.
    DecodeError,
    /// The output buffer could not be encoded or written.
    EncodeError,
}

/// An owned two-dimensional grid of RGBA pixels, stored row-major.
pub struct PixelBuffer {
    pub width: u32,
    pub height: u32,
    pub pixels: Vec<Rgba>,
}

impl PixelBuffer {
    /// Well-formed: the storage holds exactly one pixel per coordinate.
    pub open spec fn wf(self) -> bool {
        self.pixels@.len() == self.width as int * self.height as int
    }

    /// The pixel at coordinate (x, y), for 0 <= x < width, 0 <= y < height.
    pub open spec fn spec_index(self, x: int, y: int) -> Rgba {
        self.pixels@[y * self.width as int + x]
    }

    /// Allocates a buffer of the given size, every pixel transparent black.
    pub fn new(width: u32, height: u32) -> (buf: PixelBuffer)
        requires
            width as int * height as int <= usize::MAX as int,
        ensures
            buf.wf(),
            buf.width == width,
            buf.height == height,
            forall|i: int| 0 <= i < buf.pixels@.len() ==> buf.pixels@[i] == (Rgba {
                r: 0,
                g: 0,
                b: 0,
                a: 0,
            }),
    {
        let len: usize = (width as usize) * (height as usize);
        let mut pixels: Vec<Rgba> = Vec::new();
        let mut i: usize = 0;
        while i < len
            invariant
                i <= len,
                pixels@.len() == i as int,
                forall|j: int| 0 <= j < i as int ==> pixels@[j] == (Rgba {
                    r: 0,
                    g: 0,
                    b: 0,
                    a: 0,
                }),
            decreases len - i,
        {
            pixels.push(Rgba { r: 0, g: 0, b: 0, a: 0 });
            i = i + 1;
        }
        PixelBuffer { width, height, pixels }
    }

    /// Builds a buffer from raw row-major storage of the right length.
    pub fn from_raw(width: u32, height: u32, pixels: Vec<Rgba>) -> (buf: PixelBuffer)
        requires
            pixels@.len() == width as int * height as int,
        ensures
            buf.wf(),
            buf.width == width,
            buf.height == height,
            buf.pixels@ == pixels@,
    {
        PixelBuffer { width, height, pixels }
    }

    /// The width and height of the buffer.
    pub fn dimensions(&self) -> (dims: (u32, u32))
        ensures
            dims.0 == self.width,
            dims.1 == self.height,
    {
        (self.width, self.height)
    }

    /// Reads the pixel at an in-bounds coordinate.
    pub fn at(&self, x: u32, y: u32) -> (p: Rgba)
        requires
            self.wf(),
            x < self.width,
            y < self.height,
        ensures
            p == self.spec_index(x as int, y as int),
    {
        proof {
            lemma_row_major_index_in_range(
                x as int,
                y as int,
                self.width as int,
                self.height as int,
            );
        }
        let n: usize = self.pixels.len();
        assert(y * self.width as int + x < n as int);
        let idx: usize = (y as usize) * (self.width as usize) + (x as usize);
        self.pixels[idx]
    }

    /// Reads the pixel at (x, y); out-of-range coordinates are rejected.
    pub fn get(&self, x: u32, y: u32) -> (r: Result<Rgba, FilterError>)
        requires
            self.wf(),
        ensures
            x < self.width && y < self.height ==> r == Ok::<Rgba, FilterError>(
                self.spec_index(x as int, y as int),
            ),
            !(x < self.width && y < self.height) ==> r == Err::<Rgba, FilterError>(
                FilterError::OutOfBounds,
            ),
    {
        if x < self.width && y < self.height {
            Ok(self.at(x, y))
        } else {
            Err(FilterError::OutOfBounds)
        }
    }

    /// Replaces the pixel at (x, y); out-of-range coordinates are rejected
    /// and leave the buffer unchanged.
    pub fn set(&mut self, x: u32, y: u32, value: Rgba) -> (r: Result<(), FilterError>)
        requires
            old(self).wf(),
        ensures
            final(self).wf(),
            final(self).width == old(self).width,
            final(self).height == old(self).height,
            x < old(self).width && y < old(self).height ==> r == Ok::<(), FilterError>(())
                && final(self).pixels@ == old(self).pixels@.update(
                y * old(self).width as int + x,
                value,
            ),
            !(x < old(self).width && y < old(self).height) ==> r == Err::<(), FilterError>(
                FilterError::OutOfBounds,
            ) && final(self).pixels@ == old(self).pixels@,
    {
        if x < self.width && y < self.height {
            proof {
                lemma_row_major_index_in_range(
                    x as int,
                    y as int,
                    self.width as int,
                    self.height as int,
                );
            }
            let n: usize = self.pixels.len();
            assert(y * self.width as int + x < n as int);
            let idx: usize = (y as usize) * (self.width as usize) + (x as usize);
            self.pixels.set(idx, value);
            Ok(())
        } else {
            Err(FilterError::OutOfBounds)
        }
    }
}

/// Row-major order: a coordinate strictly below another row, or earlier in
/// the same row, has the strictly smaller storage index.
pub proof fn lemma_row_major_lt(w: int, x1: int, y1: int, x2: int, y2: int)
    by (nonlinear_arith)
    requires
        0 <= x1 < w,
        0 <= x2 < w,
        y1 < y2 || (y1 == y2 && x1 < x2),
        0 <= y1,
    ensures
        y1 * w + x1 < y2 * w + x2,
{
}

/// The storage index of an in-bounds coordinate lies inside the buffer.
pub proof fn lemma_row_major_index_in_range(x: int, y: int, w: int, h: int)
    by (nonlinear_arith)
    requires
        0 <= x < w,
        0 <= y < h,
    ensures
        0 <= y * w + x < w * h,
{
}

} // verus!
