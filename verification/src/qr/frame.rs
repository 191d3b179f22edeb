//! An RGBA8 image held as plain bytes, row by row.
use vstd::prelude::*;

verus! {

/// The width of the 3DS top screen, in pixels.
pub const TOP_WIDTH: u32 = 400;

/// The height of the 3DS top screen, in pixels.
pub const TOP_HEIGHT: u32 = 240;

/// An RGBA8 image: `width * height` pixels of 4 bytes each, row by row.
pub struct RgbaFrame {
    pub width: u32,
    pub height: u32,
    pub pixels: Vec<u8>,
}

impl RgbaFrame {
    /// The pixel bytes fill exactly `width * height` pixels.
    pub open spec fn wf(&self) -> bool {
        self.pixels@.len() == self.width as int * self.height as int * 4
    }

    /// Whether the pixel bytes fill exactly `width * height` pixels.
    pub fn is_well_formed(&self) -> (b: bool)
        ensures
            b == self.wf(),
    {
        let w = self.width as u128;
        let h = self.height as u128;
        assert(w * h * 4 <= 0xffff_ffff * 0xffff_ffff * 4) by (nonlinear_arith)
            requires
                w <= 0xffff_ffff,
                h <= 0xffff_ffff,
        ;
        let need: u128 = w * h * 4;
        need == self.pixels.len() as u128
    }

    /// An all-zero (transparent black) image of the given size.
    pub fn new(width: u32, height: u32) -> (f: RgbaFrame)
        requires
            width as int * height as int * 4 <= usize::MAX,
        ensures
            f.wf(),
            f.width == width,
            f.height == height,
            forall|i: int| 0 <= i < f.pixels@.len() ==> #[trigger] f.pixels@[i] == 0u8,
    {
        let w = width as usize;
        let h = height as usize;
        assert(w * h * 4 <= usize::MAX) by (nonlinear_arith)
            requires
                w == width,
                h == height,
                width as int * height as int * 4 <= usize::MAX,
        ;
        assert(w * h <= w * h * 4) by (nonlinear_arith);
        let len = w * h * 4;
        let mut pixels: Vec<u8> = Vec::with_capacity(len);
        while pixels.len() < len
            invariant
                pixels@.len() <= len,
                forall|i: int| 0 <= i < pixels@.len() ==> #[trigger] pixels@[i] == 0u8,
            decreases len - pixels@.len(),
        {
            pixels.push(0);
        }
        RgbaFrame { width, height, pixels }
    }
}

} // verus!
