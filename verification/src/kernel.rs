use vstd::prelude::*;

verus! {

/// The largest supported kernel radius. It keeps the side of the
/// neighborhood square within 16 bits, so that channel sums fit in `u64`
/// with room to spare.
pub const MAX_RADIUS: u32 = 0x7FFF;

/// A box filter: the unweighted average over a square neighborhood of
/// side `2 * radius + 1`. Radius 0 is the identity; radius 1 is the 3x3
/// box blur this crate is built around.
#[derive(Clone, Copy, PartialEq, Eq, Structural, Debug)]
pub struct FilterKernel {
    pub radius: u32,
}

impl FilterKernel {
    /// Well-formed: the radius is small enough for the engine's arithmetic.
    pub open spec fn wf(self) -> bool {
        self.radius <= MAX_RADIUS
    }

    /// The side of the neighborhood square.
    pub open spec fn spec_side(self) -> int {
        2 * self.radius as int + 1
    }

    /// The normalization divisor: the number of samples in the
    /// neighborhood, always positive.
    pub open spec fn spec_divisor(self) -> int {
        self.spec_side() * self.spec_side()
    }

    /// A kernel with the given radius.
    pub fn new(radius: u32) -> (k: FilterKernel)
        requires
            radius <= MAX_RADIUS,
        ensures
            k.radius == radius,
            k.wf(),
    {
        FilterKernel { radius }
    }

    /// The 3x3 box-blur kernel: radius 1, divisor 9.
    pub fn box_blur() -> (k: FilterKernel)
        ensures
            k.radius == 1,
            k.wf(),
            k.spec_divisor() == 9,
    {
        let k = FilterKernel { radius: 1 };
        proof {
            assert(k.spec_side() == 3);
            assert(k.spec_side() * k.spec_side() == 9) by (nonlinear_arith)
                requires
                    k.spec_side() == 3,
            ;
        }
        k
    }

    /// The side of the neighborhood square, `2 * radius + 1`.
    pub fn side(&self) -> (s: u32)
        requires
            self.wf(),
        ensures
            s == self.spec_side(),
    {
        2 * self.radius + 1
    }

    /// The normalization divisor, `(2 * radius + 1)^2`.
    pub fn divisor(&self) -> (d: u64)
        requires
            self.wf(),
        ensures
            d == self.spec_divisor(),
            d >= 1,
    {
        let s: u64 = (2 * self.radius + 1) as u64;
        proof {
            lemma_square_bounds(s as int);
        }
        s * s
    }
}

/// The square of a side that fits in 17 bits fits in `u64`, and the square
/// of a positive side is positive.
proof fn lemma_square_bounds(s: int)
    by (nonlinear_arith)
    requires
        1 <= s <= 0x1_0000,
    ensures
        1 <= s * s <= 0x1_0000_0000,
{
}

} // verus!
