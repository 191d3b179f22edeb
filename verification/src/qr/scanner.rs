//! The frame that is searched for the setup QR code, its greyscale image, and
//! which of the grids found is read.
//!
//! The QR search itself (rqrr's detection and decoding) is run by the application:
//! rqrr asserts that its perspective maps stay finite and within `i32` and that its
//! scores compare, and no condition on the pixels is known that rules out the
//! frames on which those assertions fail.
use vstd::prelude::*;

use crate::qr::frame::{RgbaFrame, TOP_HEIGHT, TOP_WIDTH};
use image::buffer::ConvertBuffer;
use image::{GrayImage, ImageBuffer, RgbaImage};

verus! {

/// The scanner's frame, which the camera fills and the QR search reads.
pub struct Scanner {
    pub image: RgbaFrame,
}

/// The luma of an RGBA8 pixel: sRGB weights 2126, 7152 and 722 over 10000,
/// truncated; alpha plays no part.
pub open spec fn luma_of(r: u8, g: u8, b: u8) -> u8 {
    ((2126 * r + 7152 * g + 722 * b) / 10000) as u8
}

/// The greyscale image of an RGBA8 buffer, pixel by pixel.
pub open spec fn luma_image(rgba: Seq<u8>) -> Seq<u8> {
    Seq::new(
        (rgba.len() / 4) as nat,
        |p: int| luma_of(rgba[4 * p], rgba[4 * p + 1], rgba[4 * p + 2]),
    )
}

/// Converts an RGBA8 image to greyscale with `image`'s `ConvertBuffer::convert`
/// (RGBA to Luma). Its source computes each grey byte as `luma_of` of the pixel,
/// which is what this contract claims.
#[verifier::external_body]
fn rgba_to_luma(width: u32, height: u32, rgba: &[u8]) -> (luma: Vec<u8>)
    requires
        rgba@.len() == width as int * height as int * 4,
    ensures
        luma@ == luma_image(rgba@),
{
    let rgba_image: RgbaImage = ImageBuffer::from_raw(width, height, rgba.to_vec()).unwrap();
    let gray: GrayImage = rgba_image.convert();
    gray.into_raw()
}

/// Which of the `count` grids found a scan reads: the last one, if there is one.
pub fn last_grid(count: usize) -> (index: Option<usize>)
    ensures
        count == 0 ==> index is None,
        count > 0 ==> index == Some((count - 1) as usize),
{
    if count == 0 {
        None
    } else {
        Some(count - 1)
    }
}

impl Default for Scanner {
    /// A scanner whose frame is a blank top-screen image.
    fn default() -> (s: Scanner)
        ensures
            s.image.wf(),
            s.image.width == TOP_WIDTH,
            s.image.height == TOP_HEIGHT,
            forall|i: int| 0 <= i < s.image.pixels@.len() ==> #[trigger] s.image.pixels@[i] == 0u8,
    {
        Scanner { image: RgbaFrame::new(TOP_WIDTH, TOP_HEIGHT) }
    }
}

impl Scanner {
    /// The frame turned to greyscale, one byte per pixel, row by row: the image
    /// that the QR search reads.
    pub fn luma(&self) -> (luma: Vec<u8>)
        requires
            self.image.wf(),
        ensures
            luma@ == luma_image(self.image.pixels@),
            luma@.len() == self.image.width as int * self.image.height as int,
    {
        let w = self.image.width;
        let h = self.image.height;
        let luma = rgba_to_luma(w, h, self.image.pixels.as_slice());
        assert(luma@.len() == w as int * h as int) by (nonlinear_arith)
            requires
                luma@.len() == (self.image.pixels@.len() / 4) as nat,
                self.image.pixels@.len() == w as int * h as int * 4,
        ;
        luma
    }
}

} // verus!
