//! The pixel surface: owned framebuffer memory, its descriptor, and the
//! encoding of one intensity value into device bytes.

use vstd::prelude::*;
use vstd::pervasive::VecAdditionalExecFns;
use crate::{CHAR_HEIGHT, CHAR_WIDTH};

verus! {

/// Byte layout used to encode one pixel's intensity.
#[derive(Clone, Copy, PartialEq, Eq, Structural, Debug)]
pub enum PixelFormat {
    /// Red, green, blue channel bytes, in that order.
    Rgb,
    /// Blue, green, red channel bytes, in that order.
    Bgr,
    /// A single grayscale byte.
    U8,
    /// Any layout the console cannot drive.
    Unsupported,
}

/// Geometry and encoding of a linear framebuffer.
#[derive(Clone, Copy, PartialEq, Eq, Structural, Debug)]
pub struct FrameBufferInfo {
    /// Logical width in pixels.
    pub width: usize,
    /// Logical height in pixels.
    pub height: usize,
    /// Pixels per physical row; may exceed `width` due to padding.
    pub stride: usize,
    /// Bytes that one pixel occupies.
    pub bytes_per_pixel: usize,
    /// Channel layout of one pixel.
    pub pixel_format: PixelFormat,
}

pub open spec fn supported(fmt: PixelFormat) -> bool {
    fmt != PixelFormat::Unsupported
}

/// The four candidate channel bytes that encode one intensity; the first
/// `bytes_per_pixel` of them are stored for each pixel.
pub open spec fn color_bytes(fmt: PixelFormat, intensity: u8) -> Seq<u8> {
    match fmt {
        PixelFormat::Rgb => seq![intensity, intensity, (intensity / 2) as u8, 0u8],
        PixelFormat::Bgr => seq![(intensity / 2) as u8, intensity, intensity, 0u8],
        PixelFormat::U8 => seq![if intensity > 200 { 0x0fu8 } else { 0u8 }, 0u8, 0u8, 0u8],
        PixelFormat::Unsupported => seq![0u8, 0u8, 0u8, 0u8],
    }
}

/// The bytes one pixel of intensity `intensity` occupies in the buffer.
pub open spec fn encoded(fmt: PixelFormat, intensity: u8, bpp: int) -> Seq<u8> {
    color_bytes(fmt, intensity).take(bpp)
}

/// Byte offset of pixel (x, y) in the framebuffer.
pub open spec fn boff(info: FrameBufferInfo, x: int, y: int) -> int {
    (y * info.stride + x) * info.bytes_per_pixel
}

pub open spec fn info_wf(info: FrameBufferInfo) -> bool {
    &&& supported(info.pixel_format)
    &&& 1 <= info.bytes_per_pixel <= 4
    &&& info.width <= info.stride
}

/// A rectangle of pixels: x0 <= px < x0 + w and y0 <= py < y0 + h.
pub open spec fn in_rect(px: int, py: int, x0: int, y0: int, w: int, h: int) -> bool {
    x0 <= px < x0 + w && y0 <= py < y0 + h
}

/// One pixel byte of a bitmap, zero outside the bitmap's own extent.
pub open spec fn bitmap_pixel(rows: Seq<Seq<u8>>, dy: int, dx: int) -> u8 {
    if 0 <= dy < rows.len() && 0 <= dx < rows[dy].len() {
        rows[dy][dx]
    } else {
        0u8
    }
}

/// The framebuffer memory together with its descriptor.
pub struct PixelSurface {
    /// Raw pixel bytes, `stride * height * bytes_per_pixel` of them.
    pub buf: Vec<u8>,
    /// Geometry and encoding of the buffer.
    pub info: FrameBufferInfo,
}

pub proof fn lemma_boff_bounds(info: FrameBufferInfo, len: int, x: int, y: int)
    requires
        info_wf(info),
        len == info.stride * info.height * info.bytes_per_pixel,
        0 <= x < info.stride,
        0 <= y < info.height,
    ensures
        0 <= y * info.stride + x,
        y * info.stride + x <= boff(info, x, y),
        boff(info, x, y) + info.bytes_per_pixel <= len,
{
    let s = info.stride as int;
    let h = info.height as int;
    let b = info.bytes_per_pixel as int;
    assert(0 <= y * s + x && y * s + x < s * h) by (nonlinear_arith)
        requires 0 <= x < s, 0 <= y < h;
    assert((y * s + x) * b + b <= s * h * b) by (nonlinear_arith)
        requires y * s + x < s * h, 1 <= b, 0 <= y * s + x;
    assert(y * s + x <= (y * s + x) * b) by (nonlinear_arith)
        requires 0 <= y * s + x, 1 <= b;
}

pub proof fn lemma_boff_disjoint(info: FrameBufferInfo, x1: int, y1: int, x2: int, y2: int)
    requires
        info_wf(info),
        0 <= x1 < info.stride,
        0 <= y1 < info.height,
        0 <= x2 < info.stride,
        0 <= y2 < info.height,
        !(x1 == x2 && y1 == y2),
    ensures
        boff(info, x1, y1) + info.bytes_per_pixel <= boff(info, x2, y2)
            || boff(info, x2, y2) + info.bytes_per_pixel <= boff(info, x1, y1),
{
    let s = info.stride as int;
    let b = info.bytes_per_pixel as int;
    let p1 = y1 * s + x1;
    let p2 = y2 * s + x2;
    assert(p1 != p2) by (nonlinear_arith)
        requires
            p1 == y1 * s + x1, p2 == y2 * s + x2,
            0 <= x1 < s, 0 <= x2 < s,
            !(x1 == x2 && y1 == y2);
    if p1 < p2 {
        assert(p1 * b + b <= p2 * b) by (nonlinear_arith)
            requires p1 < p2, 1 <= b;
    } else {
        assert(p2 * b + b <= p1 * b) by (nonlinear_arith)
            requires p2 < p1, 1 <= b;
    }
}

impl PixelSurface {
    pub open spec fn wf(self) -> bool {
        &&& info_wf(self.info)
        &&& self.buf.len() == self.info.stride * self.info.height * self.info.bytes_per_pixel
    }

    /// Pixel coordinates that address memory, including stride padding.
    pub open spec fn valid_xy(self, x: int, y: int) -> bool {
        0 <= x < self.info.stride && 0 <= y < self.info.height
    }

    /// The device bytes of pixel (x, y).
    pub open spec fn pix(self, x: int, y: int) -> Seq<u8> {
        self.buf@.subrange(boff(self.info, x, y), boff(self.info, x, y) + self.info.bytes_per_pixel)
    }

    /// Encodes one intensity per the active pixel format and stores it at
    /// pixel (x, y); any pixel of the buffer may be addressed, including
    /// the stride-padding band beyond the logical width.
    pub fn write_pixel(&mut self, x: usize, y: usize, intensity: u8)
        requires
            old(self).wf(),
            x < old(self).info.stride,
            y < old(self).info.height,
        ensures
            final(self).wf(),
            final(self).info == old(self).info,
            final(self).buf.len() == old(self).buf.len(),
            final(self).pix(x as int, y as int)
                == encoded(old(self).info.pixel_format, intensity, old(self).info.bytes_per_pixel as int),
            forall|px: int, py: int|
                old(self).valid_xy(px, py) && !(px == x && py == y)
                    ==> final(self).pix(px, py) == old(self).pix(px, py),
    {
        proof {
            lemma_boff_bounds(self.info, self.buf.len() as int, x as int, y as int);
        }
        let stride = self.info.stride;
        let bpp = self.info.bytes_per_pixel;
        let (c0, c1, c2, c3) = match self.info.pixel_format {
            PixelFormat::Rgb => (intensity, intensity, intensity / 2, 0u8),
            PixelFormat::Bgr => (intensity / 2, intensity, intensity, 0u8),
            PixelFormat::U8 => (if intensity > 200 { 0x0fu8 } else { 0u8 }, 0u8, 0u8, 0u8),
            PixelFormat::Unsupported => (0u8, 0u8, 0u8, 0u8),
        };
        let off = (y * stride + x) * bpp;
        self.buf.set(off, c0);
        if bpp >= 2 {
            self.buf.set(off + 1, c1);
        }
        if bpp >= 3 {
            self.buf.set(off + 2, c2);
        }
        if bpp >= 4 {
            self.buf.set(off + 3, c3);
        }
        proof {
            assert(self.pix(x as int, y as int)
                =~= encoded(self.info.pixel_format, intensity, self.info.bytes_per_pixel as int));
            assert forall|px: int, py: int|
                old(self).valid_xy(px, py) && !(px == x && py == y)
                    implies self.pix(px, py) == old(self).pix(px, py) by {
                lemma_boff_disjoint(self.info, px, py, x as int, y as int);
                lemma_boff_bounds(self.info, self.buf.len() as int, px, py);
                assert(self.pix(px, py) =~= old(self).pix(px, py));
            }
        }
    }

    /// Sets every byte of the framebuffer to zero.
    #[verifier::loop_isolation(false)]
    pub fn fill_zero(&mut self)
        requires
            old(self).wf(),
        ensures
            final(self).wf(),
            final(self).info == old(self).info,
            final(self).buf.len() == old(self).buf.len(),
            forall|i: int| 0 <= i < final(self).buf.len() ==> final(self).buf@[i] == 0u8,
    {
        let n = self.buf.len();
        let mut i: usize = 0;
        while i < n
            invariant
                i <= n,
                self.buf.len() == n,
                self.info == old(self).info,
                forall|j: int| 0 <= j < i ==> self.buf@[j] == 0u8,
            decreases n - i,
        {
            self.buf.set(i, 0u8);
            i += 1;
        }
    }

    /// Fills a pixel rectangle with one intensity.
    #[verifier::loop_isolation(false)]
    pub fn fill_rect(&mut self, x0: usize, y0: usize, w: usize, h: usize, intensity: u8)
        requires
            old(self).wf(),
            x0 + w <= old(self).info.width,
            y0 + h <= old(self).info.height,
        ensures
            final(self).wf(),
            final(self).info == old(self).info,
            final(self).buf.len() == old(self).buf.len(),
            forall|px: int, py: int| old(self).valid_xy(px, py)
                ==> #[trigger] final(self).pix(px, py) == (
                    if in_rect(px, py, x0 as int, y0 as int, w as int, h as int) {
                        encoded(old(self).info.pixel_format, intensity, old(self).info.bytes_per_pixel as int)
                    } else {
                        old(self).pix(px, py)
                    }),
    {
        let mut dy: usize = 0;
        while dy < h
            invariant
                dy <= h,
                self.wf(),
                self.info == old(self).info,
                self.buf.len() == old(self).buf.len(),
                forall|px: int, py: int| old(self).valid_xy(px, py)
                    ==> #[trigger] self.pix(px, py) == (
                        if in_rect(px, py, x0 as int, y0 as int, w as int, dy as int) {
                            encoded(old(self).info.pixel_format, intensity, old(self).info.bytes_per_pixel as int)
                        } else {
                            old(self).pix(px, py)
                        }),
            decreases h - dy,
        {
            let mut dx: usize = 0;
            while dx < w
                invariant
                    dx <= w,
                    dy < h,
                    self.wf(),
                    self.info == old(self).info,
                    self.buf.len() == old(self).buf.len(),
                    forall|px: int, py: int| old(self).valid_xy(px, py)
                        ==> #[trigger] self.pix(px, py) == (
                            if in_rect(px, py, x0 as int, y0 as int, w as int, dy as int)
                                || (py == y0 + dy && x0 <= px < x0 + dx) {
                                encoded(old(self).info.pixel_format, intensity, old(self).info.bytes_per_pixel as int)
                            } else {
                                old(self).pix(px, py)
                            }),
                decreases w - dx,
            {
                self.write_pixel(x0 + dx, y0 + dy, intensity);
                dx += 1;
            }
            dy += 1;
        }
    }

    /// Copies a glyph bitmap into the cell whose top-left pixel is
    /// (x0, y0), clipping or zero-padding each bitmap row to the cell
    /// width.
    #[verifier::loop_isolation(false)]
    pub fn blit_glyph(&mut self, x0: usize, y0: usize, glyph: &Vec<Vec<u8>>)
        requires
            old(self).wf(),
            x0 + CHAR_WIDTH <= old(self).info.width,
            y0 + CHAR_HEIGHT <= old(self).info.height,
            glyph@.len() == CHAR_HEIGHT,
        ensures
            final(self).wf(),
            final(self).info == old(self).info,
            final(self).buf.len() == old(self).buf.len(),
            forall|px: int, py: int| old(self).valid_xy(px, py)
                ==> #[trigger] final(self).pix(px, py) == (
                    if in_rect(px, py, x0 as int, y0 as int, CHAR_WIDTH as int, CHAR_HEIGHT as int) {
                        encoded(old(self).info.pixel_format,
                            bitmap_pixel(glyph@.map_values(|r: Vec<u8>| r@), py - y0, px - x0),
                            old(self).info.bytes_per_pixel as int)
                    } else {
                        old(self).pix(px, py)
                    }),
    {
        let ghost rows = glyph@.map_values(|r: Vec<u8>| r@);
        let mut dy: usize = 0;
        while dy < CHAR_HEIGHT
            invariant
                dy <= CHAR_HEIGHT,
                self.wf(),
                self.info == old(self).info,
                self.buf.len() == old(self).buf.len(),
                forall|px: int, py: int| old(self).valid_xy(px, py)
                    ==> #[trigger] self.pix(px, py) == (
                        if in_rect(px, py, x0 as int, y0 as int, CHAR_WIDTH as int, dy as int) {
                            encoded(old(self).info.pixel_format, bitmap_pixel(rows, py - y0, px - x0),
                                old(self).info.bytes_per_pixel as int)
                        } else {
                            old(self).pix(px, py)
                        }),
            decreases CHAR_HEIGHT - dy,
        {
            let row: &Vec<u8> = &glyph[dy];
            let mut dx: usize = 0;
            while dx < CHAR_WIDTH
                invariant
                    dx <= CHAR_WIDTH,
                    dy < CHAR_HEIGHT,
                    row@ == rows[dy as int],
                    self.wf(),
                    self.info == old(self).info,
                    self.buf.len() == old(self).buf.len(),
                    forall|px: int, py: int| old(self).valid_xy(px, py)
                        ==> #[trigger] self.pix(px, py) == (
                            if in_rect(px, py, x0 as int, y0 as int, CHAR_WIDTH as int, dy as int)
                                || (py == y0 + dy && x0 <= px < x0 + dx) {
                                encoded(old(self).info.pixel_format, bitmap_pixel(rows, py - y0, px - x0),
                                    old(self).info.bytes_per_pixel as int)
                            } else {
                                old(self).pix(px, py)
                            }),
                decreases CHAR_WIDTH - dx,
            {
                let it = if dx < row.len() { row[dx] } else { 0u8 };
                assert(it == bitmap_pixel(rows, dy as int, dx as int));
                self.write_pixel(x0 + dx, y0 + dy, it);
                dx += 1;
            }
            dy += 1;
        }
    }
}

} // verus!
