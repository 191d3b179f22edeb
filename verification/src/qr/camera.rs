//! The camera's frame buffer and its conversion from RGB565 to RGBA8.
use vstd::prelude::*;

verus! {

/// The bytes that the outer cameras deliver for one frame, in little-endian RGB565.
pub struct CameraState {
    pub rgb565_camera_buf: Vec<u8>,
}

/// A 5-bit channel scaled to 8 bits.
pub open spec fn scale5(v: int) -> int {
    v * 255 / 31
}

/// A 6-bit channel scaled to 8 bits.
pub open spec fn scale6(v: int) -> int {
    v * 255 / 63
}

/// The 16-bit RGB565 value stored little-endian in `lo`, `hi`.
pub open spec fn rgb565_value(lo: u8, hi: u8) -> int {
    hi * 256 + lo
}

/// The RGBA8 pixel for the RGB565 pixel stored little-endian in `lo`, `hi`:
/// red from bits 11..16, green from bits 5..11, blue from bits 0..5, each
/// scaled to 0..=255 with truncating division, and an opaque alpha.
pub open spec fn rgba8_of(lo: u8, hi: u8) -> Seq<u8> {
    let v = rgb565_value(lo, hi);
    seq![
        scale5(v / 2048) as u8,
        scale6((v / 32) % 64) as u8,
        scale5(v % 32) as u8,
        255u8,
    ]
}

/// The `p`-th 4-byte pixel of an RGBA8 buffer.
pub open spec fn rgba_pixel(s: Seq<u8>, p: int) -> Seq<u8> {
    s.subrange(4 * p, 4 * p + 4)
}

/// The RGBA8 pixel converted from the `p`-th 2-byte pixel of an RGB565 buffer.
pub open spec fn converted_pixel(src: Seq<u8>, p: int) -> Seq<u8> {
    rgba8_of(src[2 * p], src[2 * p + 1])
}

/// How many pixels a conversion visits: it goes on while both buffers have bytes left.
pub open spec fn converted_pixels(src_len: int, dst_len: int) -> int {
    let a = (src_len + 1) / 2;
    let b = (dst_len + 3) / 4;
    if a <= b {
        a
    } else {
        b
    }
}

/// A conversion between buffers of these lengths never reads or writes past their ends:
/// the last pixel it visits is whole in both.
pub open spec fn convert_fits(src_len: int, dst_len: int) -> bool {
    2 * converted_pixels(src_len, dst_len) <= src_len && 4 * converted_pixels(src_len, dst_len)
        <= dst_len
}

/// An RGBA8 buffer after converting `src` into it: the first `converted_pixels`
/// pixels are converted from `src`, the rest of the bytes are those of `dst`.
pub open spec fn converted_buffer(src: Seq<u8>, dst: Seq<u8>) -> Seq<u8> {
    let n = converted_pixels(src.len() as int, dst.len() as int);
    Seq::new(
        dst.len(),
        |j: int|
            if j < 4 * n {
                converted_pixel(src, j / 4)[j % 4]
            } else {
                dst[j]
            },
    )
}

/// Whether converting between buffers of these lengths stays in bounds.
pub fn conversion_fits(src_len: usize, dst_len: usize) -> (b: bool)
    ensures
        b == convert_fits(src_len as int, dst_len as int),
{
    let a = src_len / 2 + src_len % 2;
    let b = dst_len / 4 + if dst_len % 4 == 0 { 0 } else { 1 };
    let n = if a <= b { a } else { b };
    assert(a == (src_len + 1) / 2);
    assert(b == (dst_len + 3) / 4);
    n <= src_len / 2 && n <= dst_len / 4
}

proof fn lemma_rgb565_bits(lo: u8, hi: u8, v: u16)
    requires
        v == ((hi as u16) << 8u16) | (lo as u16),
    ensures
        v == rgb565_value(lo, hi),
        (v >> 11u16) & 0x1Fu16 == v / 2048,
        (v >> 5u16) & 0x3Fu16 == (v / 32) % 64,
        v & 0x1Fu16 == v % 32,
{
    assert(v == hi as u16 * 256 + lo as u16) by (bit_vector)
        requires
            v == ((hi as u16) << 8u16) | (lo as u16),
    ;
    assert((v >> 11u16) & 0x1Fu16 == v / 2048) by (bit_vector);
    assert((v >> 5u16) & 0x3Fu16 == (v / 32) % 64) by (bit_vector);
    assert(v & 0x1Fu16 == v % 32) by (bit_vector);
}

proof fn lemma_scale_bounds(r5: u16, b5: u16, g6: u16)
    requires
        r5 < 32,
        b5 < 32,
        g6 < 64,
    ensures
        r5 * 255 <= 7905,
        b5 * 255 <= 7905,
        g6 * 255 <= 16065,
        (r5 * 255) / 31 <= 255,
        (b5 * 255) / 31 <= 255,
        (g6 * 255) / 63 <= 255,
{
    assert(r5 * 255 <= 7905 && (r5 * 255) / 31 <= 255) by (nonlinear_arith)
        requires
            r5 < 32,
    ;
    assert(b5 * 255 <= 7905 && (b5 * 255) / 31 <= 255) by (nonlinear_arith)
        requires
            b5 < 32,
    ;
    assert(g6 * 255 <= 16065 && (g6 * 255) / 63 <= 255) by (nonlinear_arith)
        requires
            g6 < 64,
    ;
}

/// Every whole pixel is converted and nothing else is touched: for a conversion
/// that stays in bounds, byte `j` of the result is byte `j % 4` of the RGBA8 form of
/// source pixel `j / 4` whenever that pixel (both its bytes) exists in the source,
/// and the old byte otherwise. The RGBA8 form of the little-endian value `v` is its
/// top 5 bits times 255 over 31, its middle 6 bits times 255 over 63, its low 5 bits
/// times 255 over 31, and 255.
pub proof fn law_convert_every_whole_pixel(src: Seq<u8>, dst: Seq<u8>, j: int)
    requires
        convert_fits(src.len() as int, dst.len() as int),
        0 <= j < dst.len(),
    ensures
        converted_buffer(src, dst).len() == dst.len(),
        ({
            let p = j / 4;
            let v = src[2 * p + 1] as int * 256 + src[2 * p] as int;
            2 * p + 1 < src.len() ==> converted_buffer(src, dst)[j] == if j % 4 == 0 {
                (v / 2048) * 255 / 31
            } else if j % 4 == 1 {
                ((v / 32) % 64) * 255 / 63
            } else if j % 4 == 2 {
                (v % 32) * 255 / 31
            } else {
                255
            }
        }),
        2 * (j / 4) + 1 >= src.len() ==> converted_buffer(src, dst)[j] == dst[j],
{
    let p = j / 4;
    let n = converted_pixels(src.len() as int, dst.len() as int);
    if 2 * p + 1 < src.len() {
        assert(p < n);
        let v = rgb565_value(src[2 * p], src[2 * p + 1]);
        assert(0 <= v < 65536);
        assert(0 <= v / 2048 < 32 && 0 <= (v / 32) % 64 < 64 && 0 <= v % 32 < 32);
        let r = v / 2048;
        let g = (v / 32) % 64;
        let b = v % 32;
        assert(0 <= r * 255 / 31 <= 255) by (nonlinear_arith)
            requires
                0 <= r < 32,
        ;
        assert(0 <= g * 255 / 63 <= 255) by (nonlinear_arith)
            requires
                0 <= g < 64,
        ;
        assert(0 <= b * 255 / 31 <= 255) by (nonlinear_arith)
            requires
                0 <= b < 32,
        ;
    } else {
        assert(p >= n);
    }
}

/// The red field of an RGB565 value (bits 11..16).
pub open spec fn red5(v: int) -> int {
    v / 2048
}

/// The green field of an RGB565 value (bits 5..11).
pub open spec fn green6(v: int) -> int {
    (v / 32) % 64
}

/// The blue field of an RGB565 value (bits 0..5).
pub open spec fn blue5(v: int) -> int {
    v % 32
}

/// A converted pixel is opaque, and each of its colour channels is its own field
/// scaled: 0 stays 0, the field's maximum becomes 255, and a larger field gives a
/// strictly larger channel. A channel depends on its own field only.
pub proof fn law_channel_scaling(lo: u8, hi: u8, a: int, b: int)
    ensures
        rgba8_of(lo, hi)[3] == 255,
        rgba8_of(lo, hi)[0] == scale5(red5(rgb565_value(lo, hi))),
        rgba8_of(lo, hi)[1] == scale6(green6(rgb565_value(lo, hi))),
        rgba8_of(lo, hi)[2] == scale5(blue5(rgb565_value(lo, hi))),
        scale5(0) == 0 && scale5(31) == 255,
        scale6(0) == 0 && scale6(63) == 255,
        0 <= a < b <= 31 ==> scale5(a) < scale5(b),
        0 <= a < b <= 63 ==> scale6(a) < scale6(b),
{
    let v = rgb565_value(lo, hi);
    assert(0 <= v < 65536);
    assert(0 <= red5(v) < 32 && 0 <= green6(v) < 64 && 0 <= blue5(v) < 32);
    assert(forall|c: int| 0 <= c < 32 ==> 0 <= #[trigger] scale5(c) <= 255) by {
        assert forall|c: int| 0 <= c < 32 implies 0 <= #[trigger] scale5(c) <= 255 by {
            assert(0 <= c * 255 / 31 <= 255) by (nonlinear_arith)
                requires
                    0 <= c < 32,
            ;
        }
    }
    assert(forall|c: int| 0 <= c < 64 ==> 0 <= #[trigger] scale6(c) <= 255) by {
        assert forall|c: int| 0 <= c < 64 implies 0 <= #[trigger] scale6(c) <= 255 by {
            assert(0 <= c * 255 / 63 <= 255) by (nonlinear_arith)
                requires
                    0 <= c < 64,
            ;
        }
    }
    if 0 <= a < b <= 31 {
        assert(a * 255 / 31 < b * 255 / 31) by (nonlinear_arith)
            requires
                0 <= a < b,
        ;
    }
    if 0 <= a < b <= 63 {
        assert(a * 255 / 63 < b * 255 / 63) by (nonlinear_arith)
            requires
                0 <= a < b,
        ;
    }
}

impl CameraState {
    /// A camera state whose frame buffer is empty.
    pub fn new(byte_length: usize) -> (s: CameraState)
        ensures
            s.rgb565_camera_buf@.len() == 0,
    {
        CameraState { rgb565_camera_buf: Vec::with_capacity(byte_length) }
    }

    /// Sizes the frame buffer to `byte_length` for the next picture: bytes that are
    /// kept keep their value, new bytes are zero.
    pub fn resize_for_capture(&mut self, byte_length: usize)
        ensures
            final(self).rgb565_camera_buf@.len() == byte_length,
            forall|i: int|
                0 <= i < byte_length ==> #[trigger] final(self).rgb565_camera_buf@[i] == if i
                    < old(self).rgb565_camera_buf@.len() {
                    old(self).rgb565_camera_buf@[i]
                } else {
                    0u8
                },
    {
        if byte_length <= self.rgb565_camera_buf.len() {
            self.rgb565_camera_buf.truncate(byte_length);
        } else {
            let ghost start = self.rgb565_camera_buf@;
            while self.rgb565_camera_buf.len() < byte_length
                invariant
                    start.len() <= self.rgb565_camera_buf@.len() <= byte_length,
                    forall|i: int|
                        0 <= i < self.rgb565_camera_buf@.len() ==> #[trigger] self.rgb565_camera_buf@[i]
                            == if i < start.len() {
                            start[i]
                        } else {
                            0u8
                        },
                decreases byte_length - self.rgb565_camera_buf@.len(),
            {
                self.rgb565_camera_buf.push(0);
            }
        }
    }

    /// Convert the RGB565 buffer into an RGBA8 buffer.
    ///
    /// Pixel by pixel, while both buffers have bytes left, the two little-endian
    /// bytes of an RGB565 pixel become the four bytes of an RGBA8 pixel; the rest
    /// of `rgba8_camera_buf` is left as it was.
    pub fn convert(&mut self, rgba8_camera_buf: &mut [u8])
        requires
            convert_fits(old(self).rgb565_camera_buf@.len() as int, old(rgba8_camera_buf)@.len() as int),
        ensures
            *final(self) == *old(self),
            final(rgba8_camera_buf)@ == converted_buffer(
                old(self).rgb565_camera_buf@,
                old(rgba8_camera_buf)@,
            ),
            final(rgba8_camera_buf)@.len() == old(rgba8_camera_buf)@.len(),
            forall|p: int|
                0 <= p < converted_pixels(
                    old(self).rgb565_camera_buf@.len() as int,
                    old(rgba8_camera_buf)@.len() as int,
                ) ==> #[trigger] rgba_pixel(final(rgba8_camera_buf)@, p) == converted_pixel(
                    old(self).rgb565_camera_buf@,
                    p,
                ),
            forall|j: int|
                4 * converted_pixels(
                    old(self).rgb565_camera_buf@.len() as int,
                    old(rgba8_camera_buf)@.len() as int,
                ) <= j < old(rgba8_camera_buf)@.len() ==> #[trigger] final(rgba8_camera_buf)@[j]
                    == old(rgba8_camera_buf)@[j],
    {
        let ghost src = self.rgb565_camera_buf@;
        let ghost dst0 = rgba8_camera_buf@;
        let ghost n = converted_pixels(src.len() as int, dst0.len() as int);
        let src_len = self.rgb565_camera_buf.len();
        let dst_len = rgba8_camera_buf.len();
        let mut raw_buf_idx: usize = 0;
        let mut converted_buf_idx: usize = 0;
        let ghost mut p: int = 0;

        while raw_buf_idx < src_len && converted_buf_idx < dst_len
            invariant
                src == self.rgb565_camera_buf@,
                src_len == src.len(),
                dst_len == dst0.len(),
                rgba8_camera_buf@.len() == dst_len,
                convert_fits(src_len as int, dst_len as int),
                n == converted_pixels(src_len as int, dst_len as int),
                0 <= p <= n,
                raw_buf_idx == 2 * p,
                converted_buf_idx == 4 * p,
                forall|q: int|
                    0 <= q < p ==> #[trigger] rgba_pixel(rgba8_camera_buf@, q) == converted_pixel(
                        src,
                        q,
                    ),
                forall|j: int| 4 * p <= j < dst_len ==> #[trigger] rgba8_camera_buf@[j] == dst0[j],
            decreases src_len - raw_buf_idx,
        {
            assert(p < n);
            let lo = self.rgb565_camera_buf[raw_buf_idx];
            let hi = self.rgb565_camera_buf[raw_buf_idx + 1];

            // N.B. little endian, 0x1F == (1 << 5) - 1 and 0x3F == (1 << 6) - 1
            let rgb565: u16 = ((hi as u16) << 8u16) | (lo as u16);
            proof {
                lemma_rgb565_bits(lo, hi, rgb565);
            }
            let r5: u16 = (rgb565 >> 11u16) & 0x1F;
            let g6: u16 = (rgb565 >> 5u16) & 0x3F;
            let b5: u16 = rgb565 & 0x1F;
            proof {
                lemma_scale_bounds(r5, b5, g6);
            }

            let r8: u8 = ((r5 * 255) / 0x1F) as u8;
            let g8: u8 = ((g6 * 255) / 0x3F) as u8;
            let b8: u8 = ((b5 * 255) / 0x1F) as u8;

            let ghost before = rgba8_camera_buf@;
            rgba8_camera_buf[converted_buf_idx] = r8;
            rgba8_camera_buf[converted_buf_idx + 1] = g8;
            rgba8_camera_buf[converted_buf_idx + 2] = b8;
            rgba8_camera_buf[converted_buf_idx + 3] = 0xff;

            proof {
                let now = rgba8_camera_buf@;
                assert(rgba_pixel(now, p) =~= converted_pixel(src, p));
                assert forall|q: int| 0 <= q < p implies #[trigger] rgba_pixel(now, q)
                    == converted_pixel(src, q) by {
                    assert(rgba_pixel(now, q) =~= rgba_pixel(before, q));
                }
                p = p + 1;
            }
            raw_buf_idx += 2;
            converted_buf_idx += 4;
        }
        proof {
            assert(p == n);
            let fin = rgba8_camera_buf@;
            assert forall|j: int| 0 <= j < fin.len() implies #[trigger] fin[j] == converted_buffer(
                src,
                dst0,
            )[j] by {
                if j < 4 * n {
                    let q = j / 4;
                    assert(rgba_pixel(fin, q) == converted_pixel(src, q));
                    assert(fin[j] == rgba_pixel(fin, q)[j % 4]);
                }
            }
            assert(fin =~= converted_buffer(src, dst0));
        }
    }
}

} // verus!
