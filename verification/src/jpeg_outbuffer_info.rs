//! The geometry of the output raster: interleaved samples, scanline by
//! scanline, top to bottom and left to right.

use vstd::prelude::*;

verus! {

/// Width and height of the output raster in pixels, and its bytes per
/// pixel.
pub struct JpegOutBufferInfo {
    width: u16,
    height: u16,
    bpp: u8,
}

impl JpegOutBufferInfo {
    /// Width in pixels.
    pub closed spec fn width(&self) -> int {
        self.width as int
    }

    /// Height in pixels.
    pub closed spec fn height(&self) -> int {
        self.height as int
    }

    /// Bytes per pixel.
    pub closed spec fn bpp(&self) -> int {
        self.bpp as int
    }

    /// Number of bytes of the whole raster.
    pub open spec fn total_size(&self) -> int {
        self.width() * self.height() * self.bpp()
    }

    /// The sizes are those of unsigned 16-bit and 8-bit numbers.
    pub proof fn lemma_bounds(&self)
        ensures
            0 <= self.width() <= 65535,
            0 <= self.height() <= 65535,
            0 <= self.bpp() <= 255,
            0 <= self.width() * self.height() <= 65535 * 65535,
            0 <= self.total_size() <= 65535 * 65535 * 255,
    {
        let w = self.width();
        let h = self.height();
        let b = self.bpp();
        assert(0 <= w * h <= 65535 * 65535) by (nonlinear_arith)
            requires
                0 <= w <= 65535,
                0 <= h <= 65535,
        ;
        let wh = w * h;
        assert(0 <= wh * b <= 65535 * 65535 * 255) by (nonlinear_arith)
            requires
                0 <= wh <= 65535 * 65535,
                0 <= b <= 255,
        ;
    }

    /// An empty raster of three bytes per pixel.
    pub fn new() -> (r: Self)
        ensures
            r.width() == 0,
            r.height() == 0,
            r.bpp() == 3,
    {
        JpegOutBufferInfo { width: 0, height: 0, bpp: 3 }
    }

    /// Sets the geometry: a width and a height of at most 65535 pixels and
    /// at most 255 bytes for each pixel.
    pub fn set_parameters(&mut self, width: usize, height: usize, bpp: usize)
        requires
            width <= 65535,
            height <= 65535,
            bpp <= 255,
        ensures
            final(self).width() == width,
            final(self).height() == height,
            final(self).bpp() == bpp,
    {
        self.width = width as u16;
        self.height = height as u16;
        self.bpp = bpp as u8;
    }

    /// Width in pixels.
    pub fn get_width(&self) -> (w: usize)
        ensures
            w == self.width(),
    {
        self.width as usize
    }

    /// Height in pixels.
    pub fn get_height(&self) -> (h: usize)
        ensures
            h == self.height(),
    {
        self.height as usize
    }

    /// Width and height.
    pub fn get_dimension(&self) -> (d: (usize, usize))
        ensures
            d.0 == self.width(),
            d.1 == self.height(),
    {
        (self.width as usize, self.height as usize)
    }

    /// Bytes per pixel.
    pub fn get_bpp(&self) -> (b: usize)
        ensures
            b == self.bpp(),
    {
        self.bpp as usize
    }

    /// Number of bytes that a buffer for the whole raster needs.
    pub fn get_total_buffer_size(&self) -> (n: usize)
        requires
            self.total_size() <= usize::MAX,
        ensures
            n == self.total_size(),
    {
        proof {
            self.lemma_bounds();
        }
        self.width as usize * self.height as usize * self.bpp as usize
    }

    /// Number of bytes that a buffer for the whole raster needs, or
    /// nothing when that number does not fit in a `usize`.
    pub fn checked_total_buffer_size(&self) -> (n: Option<usize>)
        ensures
            match n {
                Some(v) => v == self.total_size(),
                None => self.total_size() > usize::MAX,
            },
    {
        proof {
            self.lemma_bounds();
        }
        let pixels: usize = self.width as usize * self.height as usize;
        pixels.checked_mul(self.bpp as usize)
    }
}

} // verus!
