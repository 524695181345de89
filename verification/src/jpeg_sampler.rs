//! Chroma upsampling, colour conversion and the writing of one minimum
//! coded unit (MCU) into the output raster.
//!
//! The chroma blocks of an MCU cover the whole MCU; where the MCU holds
//! more than one luma block, each chroma sample is repeated for the luma
//! samples it covers (nearest-neighbour upsampling). The pixels of the MCU
//! go to a rectangle of the raster that starts at a given offset: three
//! bytes for each pixel, rows one row stride apart.

use vstd::prelude::*;
use crate::jpeg_color_converter::ycbcr_to_rgb;
use crate::jpeg_color_converter::ycbcr_to_rgb_spec;
use crate::jpeg_error::JpegError;
use crate::jpeg_outbuffer_info::JpegOutBufferInfo;
use crate::jpeg_sample_block::JpegSampleBlock;

verus! {

/// How the chroma components are subsampled against the luma component.
#[derive(Clone, Copy, Debug, PartialEq, Eq, Structural)]
pub enum JpegSampleMode {
    /// No subsampling: one luma block and the two chroma blocks.
    JpegSampleMode444,
    /// Chroma halved horizontally: two luma blocks side by side.
    JpegSampleMode422,
    /// Chroma halved vertically: two luma blocks, one above the other.
    JpegSampleMode440,
    /// Chroma halved both ways: four luma blocks.
    JpegSampleMode420,
    /// A single component: one luma block, neutral chroma.
    JpegSampleModeNone,
}

/// Writes the pixels of an MCU for one sampling mode.
pub struct JpegSampler {
    mode: JpegSampleMode,
}

impl JpegSampleMode {
    /// Width of the MCU in pixels.
    pub open spec fn mcu_width(self) -> int {
        match self {
            JpegSampleMode::JpegSampleMode422 | JpegSampleMode::JpegSampleMode420 => 16,
            _ => 8,
        }
    }

    /// Height of the MCU in pixels.
    pub open spec fn mcu_height(self) -> int {
        match self {
            JpegSampleMode::JpegSampleMode440 | JpegSampleMode::JpegSampleMode420 => 16,
            _ => 8,
        }
    }

    /// Number of blocks of the MCU: the luma blocks, then one block of
    /// each chroma component.
    pub open spec fn num_blocks(self) -> int {
        match self {
            JpegSampleMode::JpegSampleMode444 => 3,
            JpegSampleMode::JpegSampleMode422 => 4,
            JpegSampleMode::JpegSampleMode440 => 4,
            JpegSampleMode::JpegSampleMode420 => 6,
            JpegSampleMode::JpegSampleModeNone => 1,
        }
    }

    /// The luma block that holds the pixel at row `r` and column `c` of
    /// the MCU. The luma blocks tile the MCU row by row.
    pub open spec fn luma_block(self, r: int, c: int) -> int {
        if self.mcu_width() == 16 {
            (r / 8) * 2 + c / 8
        } else {
            r / 8 + c / 8
        }
    }

    /// The index in its chroma blocks of the chroma sample that covers the
    /// pixel at row `r` and column `c` of the MCU.
    pub open spec fn chroma_index(self, r: int, c: int) -> int {
        (if self.mcu_height() == 16 {
            r / 2
        } else {
            r
        }) * 8 + (if self.mcu_width() == 16 {
            c / 2
        } else {
            c
        })
    }

    /// The MCU row that holds pixel row `y` of the image.
    pub open spec fn mcu_row(self, y: int) -> int {
        if self.mcu_height() == 16 {
            y / 16
        } else {
            y / 8
        }
    }

    /// The MCU column that holds pixel column `x` of the image.
    pub open spec fn mcu_column(self, x: int) -> int {
        if self.mcu_width() == 16 {
            x / 16
        } else {
            x / 8
        }
    }

    /// Number of pixel rows of `n` rows of MCUs.
    pub open spec fn pixel_rows(self, n: int) -> int {
        if self.mcu_height() == 16 {
            16 * n
        } else {
            8 * n
        }
    }

    /// Number of pixel columns of `n` columns of MCUs.
    pub open spec fn pixel_columns(self, n: int) -> int {
        if self.mcu_width() == 16 {
            16 * n
        } else {
            8 * n
        }
    }

    /// Width of the MCU in pixels.
    pub fn get_mcu_width(&self) -> (w: usize)
        ensures
            w == self.mcu_width(),
    {
        match self {
            JpegSampleMode::JpegSampleMode422 | JpegSampleMode::JpegSampleMode420 => 16,
            _ => 8,
        }
    }

    /// Height of the MCU in pixels.
    pub fn get_mcu_height(&self) -> (h: usize)
        ensures
            h == self.mcu_height(),
    {
        match self {
            JpegSampleMode::JpegSampleMode440 | JpegSampleMode::JpegSampleMode420 => 16,
            _ => 8,
        }
    }

    /// Number of blocks of the MCU.
    pub fn get_num_blocks(&self) -> (n: usize)
        ensures
            n == self.num_blocks(),
    {
        match self {
            JpegSampleMode::JpegSampleMode444 => 3,
            JpegSampleMode::JpegSampleMode422 => 4,
            JpegSampleMode::JpegSampleMode440 => 4,
            JpegSampleMode::JpegSampleMode420 => 6,
            JpegSampleMode::JpegSampleModeNone => 1,
        }
    }
}

/// The samples of each block of a slice of blocks.
pub open spec fn block_samples(blocks: Seq<JpegSampleBlock>) -> Seq<Seq<i16>> {
    Seq::new(blocks.len(), |i: int| blocks[i].samples())
}

/// The RGB value of the pixel at row `r` and column `c` of an MCU whose
/// blocks hold the samples `blocks`: the luma sample of the pixel and the
/// chroma samples that cover it, converted. A single component has neutral
/// chroma.
pub open spec fn mcu_pixel(mode: JpegSampleMode, blocks: Seq<Seq<i16>>, r: int, c: int) -> (
    int,
    int,
    int,
) {
    let y = blocks[mode.luma_block(r, c)][(r % 8) * 8 + c % 8] as int;
    if mode == JpegSampleMode::JpegSampleModeNone {
        ycbcr_to_rgb_spec(y, 128, 128)
    } else {
        ycbcr_to_rgb_spec(
            y,
            blocks[mode.num_blocks() - 2][mode.chroma_index(r, c)] as int,
            blocks[mode.num_blocks() - 1][mode.chroma_index(r, c)] as int,
        )
    }
}

/// Byte `b` of row `r` of the MCU: the bytes of a row are the red, green
/// and blue samples of its pixels from left to right.
#[verifier::opaque]
pub open spec fn mcu_byte(mode: JpegSampleMode, blocks: Seq<Seq<i16>>, r: int, b: int) -> int {
    let p = mcu_pixel(mode, blocks, r, b / 3);
    if b % 3 == 0 {
        p.0
    } else if b % 3 == 1 {
        p.1
    } else {
        p.2
    }
}

/// The index in the raster of byte `b` of row `r` of a rectangle that
/// starts at `start`, with rows `stride` bytes apart.
pub open spec fn raster_index(start: int, stride: int, r: int, b: int) -> int {
    start + r * stride + b
}

/// Whether a rectangle of `h` rows of `w3` bytes that starts at `start`
/// lies inside a raster of `len` bytes whose rows are `stride` bytes long.
pub open spec fn rect_fits(len: int, start: int, stride: int, w3: int, h: int) -> bool {
    &&& 0 <= start
    &&& w3 <= stride
    &&& start + (h - 1) * stride + w3 <= len
}

/// Whether byte `i` of the raster lies in the rectangle.
pub open spec fn in_rect(i: int, start: int, stride: int, w3: int, h: int) -> bool {
    exists|r: int|
        0 <= r < h && #[trigger] raster_index(start, stride, r, 0) <= i < raster_index(
            start,
            stride,
            r,
            0,
        ) + w3
}

/// Whether `after` is `before` with the pixels of the MCU written to the
/// rectangle at `start`: every byte of the rectangle holds its sample, and
/// every other byte is as it was.
pub open spec fn is_mcu_written(
    mode: JpegSampleMode,
    blocks: Seq<Seq<i16>>,
    before: Seq<u8>,
    after: Seq<u8>,
    start: int,
    stride: int,
) -> bool {
    &&& after.len() == before.len()
    &&& forall|r: int, b: int|
        0 <= r < mode.mcu_height() && 0 <= b < mode.mcu_width() * 3 ==> after[#[trigger] raster_index(
            start,
            stride,
            r,
            b,
        )] as int == mcu_byte(mode, blocks, r, b)
    &&& forall|i: int|
        0 <= i < before.len() && !in_rect(i, start, stride, mode.mcu_width() * 3, mode.mcu_height())
            ==> #[trigger] after[i] == before[i]
}

/// Rows of a rectangle lie one stride apart, in order.
pub proof fn lemma_raster_rows(start: int, stride: int, r1: int, r2: int)
    requires
        0 <= r1 <= r2,
        0 <= stride,
    ensures
        raster_index(start, stride, r1, 0) + (r2 - r1) * stride == raster_index(start, stride, r2, 0),
        raster_index(start, stride, r1, 0) <= raster_index(start, stride, r2, 0),
        r1 < r2 ==> raster_index(start, stride, r1, 0) + stride <= raster_index(start, stride, r2, 0),
        raster_index(start, stride, r1 + 1, 0) == raster_index(start, stride, r1, 0) + stride,
{
    assert(r1 * stride + (r2 - r1) * stride == r2 * stride) by (nonlinear_arith);
    assert((r2 - r1) * stride >= 0) by (nonlinear_arith)
        requires
            r2 - r1 >= 0,
            stride >= 0,
    ;
    if r1 < r2 {
        assert((r2 - r1) * stride >= stride) by (nonlinear_arith)
            requires
                r2 - r1 >= 1,
                stride >= 0,
        ;
    }
    assert((r1 + 1) * stride == r1 * stride + stride) by (nonlinear_arith);
}

/// Byte `b` of row `r` of a rectangle that starts at byte `b0` of row `y0`
/// of the raster is byte `b0 + b` of row `y0 + r` of the raster.
pub proof fn lemma_raster_shift(stride: int, y0: int, b0: int, r: int, b: int)
    ensures
        raster_index(raster_index(0, stride, y0, b0), stride, r, b) == raster_index(
            0,
            stride,
            y0 + r,
            b0 + b,
        ),
{
    assert(y0 * stride + r * stride == (y0 + r) * stride) by (nonlinear_arith);
}

/// A byte of a row of the raster lies in the rectangle only if its row and
/// its place in the row do.
pub proof fn lemma_in_rect_rows(stride: int, y0: int, b0: int, w3: int, h: int, y: int, b: int)
    requires
        0 <= b < stride,
        0 <= b0,
        b0 + w3 <= stride,
        in_rect(raster_index(0, stride, y, b), raster_index(0, stride, y0, b0), stride, w3, h),
    ensures
        y0 <= y < y0 + h,
        b0 <= b < b0 + w3,
{
    let i = raster_index(0, stride, y, b);
    let start = raster_index(0, stride, y0, b0);
    let r = choose|r: int|
        0 <= r < h && #[trigger] raster_index(start, stride, r, 0) <= i < raster_index(
            start,
            stride,
            r,
            0,
        ) + w3;
    lemma_raster_shift(stride, y0, b0, r, 0);
    let yr = y0 + r;
    assert(y == yr) by (nonlinear_arith)
        requires
            yr * stride + b0 <= y * stride + b < yr * stride + b0 + w3,
            0 <= b < stride,
            0 <= b0,
            b0 + w3 <= stride,
    ;
}

/// A byte of the rectangle lies in one of the raster rows that the
/// rectangle covers.
pub proof fn lemma_in_rect_bound(i: int, stride: int, y0: int, b0: int, w3: int, h: int)
    requires
        0 <= b0,
        b0 + w3 <= stride,
        0 <= y0,
        in_rect(i, raster_index(0, stride, y0, b0), stride, w3, h),
    ensures
        0 <= i < raster_index(0, stride, y0 + h, 0),
{
    let start = raster_index(0, stride, y0, b0);
    let r = choose|r: int|
        0 <= r < h && #[trigger] raster_index(start, stride, r, 0) <= i < raster_index(
            start,
            stride,
            r,
            0,
        ) + w3;
    lemma_raster_shift(stride, y0, b0, r, 0);
    lemma_raster_rows(0, stride, y0 + r + 1, y0 + h);
    lemma_raster_rows(0, stride, y0 + r, y0 + r + 1);
}

/// Where chroma is halved both ways and every luma sample is `v`, every
/// sample of the first chroma block `cb` and every sample of the second
/// `cr`, each of the 256 pixels of the MCU is the conversion of
/// (`v`, `cb`, `cr`); so the four pixels under one chroma sample are
/// alike.
pub proof fn lemma_uniform_420(blocks: Seq<Seq<i16>>, v: i16, cb: i16, cr: i16, r: int, c: int)
    requires
        blocks.len() >= 6,
        forall|k: int, i: int| 0 <= k < 4 && 0 <= i < 64 ==> #[trigger] blocks[k][i] == v,
        forall|i: int| 0 <= i < 64 ==> blocks[4][i] == cb,
        forall|i: int| 0 <= i < 64 ==> blocks[5][i] == cr,
        0 <= r < 16,
        0 <= c < 16,
    ensures
        mcu_pixel(JpegSampleMode::JpegSampleMode420, blocks, r, c) == ycbcr_to_rgb_spec(
            v as int,
            cb as int,
            cr as int,
        ),
        mcu_byte(JpegSampleMode::JpegSampleMode420, blocks, r, 3 * c) == ycbcr_to_rgb_spec(
            v as int,
            cb as int,
            cr as int,
        ).0,
        mcu_byte(JpegSampleMode::JpegSampleMode420, blocks, r, 3 * c + 1) == ycbcr_to_rgb_spec(
            v as int,
            cb as int,
            cr as int,
        ).1,
        mcu_byte(JpegSampleMode::JpegSampleMode420, blocks, r, 3 * c + 2) == ycbcr_to_rgb_spec(
            v as int,
            cb as int,
            cr as int,
        ).2,
{
    reveal(mcu_byte);
    let mode = JpegSampleMode::JpegSampleMode420;
    let k = mode.luma_block(r, c);
    assert(0 <= k < 4);
    assert(blocks[k][(r % 8) * 8 + c % 8] == v);
    assert(0 <= mode.chroma_index(r, c) < 64);
}

/// Every pixel of a written MCU lies in `0..=255`.
pub proof fn lemma_mcu_byte_in_range(mode: JpegSampleMode, blocks: Seq<Seq<i16>>, r: int, b: int)
    ensures
        0 <= mcu_byte(mode, blocks, r, b) <= 255,
{
    reveal(mcu_byte);
}

impl JpegSampler {
    /// The sampling mode.
    pub closed spec fn mode(&self) -> JpegSampleMode {
        self.mode
    }

    /// A sampler for a single component.
    pub fn new() -> (s: Self)
        ensures
            s.mode() == JpegSampleMode::JpegSampleModeNone,
    {
        JpegSampler { mode: JpegSampleMode::JpegSampleModeNone }
    }

    /// Sets the sampling mode.
    pub fn set_sampling_mode(&mut self, mode: JpegSampleMode)
        ensures
            final(self).mode() == mode,
    {
        self.mode = mode;
    }

    /// The sampling mode.
    pub fn get_sampling_mode(&self) -> (mode: JpegSampleMode)
        ensures
            mode == self.mode(),
    {
        self.mode
    }

    /// Writes the pixels of the MCU held in `blocks` to the rectangle of
    /// the raster `out_buf` that starts at `out_pos`. The raster has the
    /// width of `out_info` and three bytes for each pixel.
    ///
    /// Fails without writing when there are too few blocks, when the
    /// raster does not have three bytes for each pixel, or when the
    /// rectangle does not lie inside the raster.
    pub fn upsampling(
        &self,
        blocks: &[JpegSampleBlock],
        out_buf: &mut [u8],
        out_info: &JpegOutBufferInfo,
        out_pos: usize,
    ) -> (r: Result<(), JpegError>)
        ensures
            final(out_buf)@.len() == old(out_buf)@.len(),
            r == upsampling_result(
                self.mode(),
                blocks@.len() as int,
                old(out_buf)@.len() as int,
                out_info.width(),
                out_info.bpp(),
                out_pos as int,
            ),
            r.is_ok() ==> is_mcu_written(
                self.mode(),
                block_samples(blocks@),
                old(out_buf)@,
                final(out_buf)@,
                out_pos as int,
                out_info.width() * 3,
            ),
            r.is_err() ==> final(out_buf)@ == old(out_buf)@,
    {
        let n = self.mode.get_num_blocks();
        if blocks.len() < n {
            return Err(JpegError::LogicError);
        }
        if out_info.get_bpp() != 3 {
            return Err(JpegError::UnsupportedFeature);
        }
        proof {
            out_info.lemma_bounds();
        }
        let row_stride: usize = out_info.get_width() * 3;
        let w3: usize = self.mode.get_mcu_width() * 3;
        let h: usize = self.mode.get_mcu_height();
        if w3 > row_stride {
            return Err(JpegError::BufferTooSmall);
        }
        // The rectangle ends behind its last row: (h - 1) strides and one
        // row of bytes behind its start.
        proof {
            assert((h - 1) * row_stride <= 15 * 196605) by (nonlinear_arith)
                requires
                    0 <= h - 1 <= 15,
                    0 <= row_stride <= 196605,
            ;
        }
        let extent: usize = (h - 1) * row_stride + w3;
        if out_buf.len() < extent || out_pos > out_buf.len() - extent {
            return Err(JpegError::BufferTooSmall);
        }
        match self.mode {
            JpegSampleMode::JpegSampleMode444 => Self::upsampling444(blocks, out_buf, out_pos, row_stride),
            JpegSampleMode::JpegSampleMode422 => Self::upsampling422(blocks, out_buf, out_pos, row_stride),
            JpegSampleMode::JpegSampleMode440 => Self::upsampling440(blocks, out_buf, out_pos, row_stride),
            JpegSampleMode::JpegSampleMode420 => Self::upsampling420(blocks, out_buf, out_pos, row_stride),
            JpegSampleMode::JpegSampleModeNone => Self::upsampling1(blocks, out_buf, out_pos, row_stride),
        }
        Ok(())
    }

    /// A single component: an 8x8 MCU of grey pixels.
    fn upsampling1(blocks: &[JpegSampleBlock], out_buf: &mut [u8], out_pos: usize, row_stride: usize)
        requires
            blocks@.len() >= 1,
            rect_fits(old(out_buf)@.len() as int, out_pos as int, row_stride as int, 24, 8),
        ensures
            is_mcu_written(
                JpegSampleMode::JpegSampleModeNone,
                block_samples(blocks@),
                old(out_buf)@,
                final(out_buf)@,
                out_pos as int,
                row_stride as int,
            ),
    {
        Self::upsample_rect(JpegSampleMode::JpegSampleModeNone, blocks, out_buf, out_pos, row_stride)
    }

    /// No subsampling: an 8x8 MCU, each pixel from the samples at its own
    /// position in the three blocks.
    fn upsampling444(blocks: &[JpegSampleBlock], out_buf: &mut [u8], out_pos: usize, row_stride: usize)
        requires
            blocks@.len() >= 3,
            rect_fits(old(out_buf)@.len() as int, out_pos as int, row_stride as int, 24, 8),
        ensures
            is_mcu_written(
                JpegSampleMode::JpegSampleMode444,
                block_samples(blocks@),
                old(out_buf)@,
                final(out_buf)@,
                out_pos as int,
                row_stride as int,
            ),
    {
        Self::upsample_rect(JpegSampleMode::JpegSampleMode444, blocks, out_buf, out_pos, row_stride)
    }

    /// Chroma halved horizontally: a 16x8 MCU, the first luma block on the
    /// left and the second on the right, each chroma sample for two pixels
    /// side by side.
    fn upsampling422(blocks: &[JpegSampleBlock], out_buf: &mut [u8], out_pos: usize, row_stride: usize)
        requires
            blocks@.len() >= 4,
            rect_fits(old(out_buf)@.len() as int, out_pos as int, row_stride as int, 48, 8),
        ensures
            is_mcu_written(
                JpegSampleMode::JpegSampleMode422,
                block_samples(blocks@),
                old(out_buf)@,
                final(out_buf)@,
                out_pos as int,
                row_stride as int,
            ),
    {
        Self::upsample_rect(JpegSampleMode::JpegSampleMode422, blocks, out_buf, out_pos, row_stride)
    }

    /// Chroma halved vertically: an 8x16 MCU, the first luma block on top
    /// and the second below, each chroma row for two rows of pixels.
    fn upsampling440(blocks: &[JpegSampleBlock], out_buf: &mut [u8], out_pos: usize, row_stride: usize)
        requires
            blocks@.len() >= 4,
            rect_fits(old(out_buf)@.len() as int, out_pos as int, row_stride as int, 24, 16),
        ensures
            is_mcu_written(
                JpegSampleMode::JpegSampleMode440,
                block_samples(blocks@),
                old(out_buf)@,
                final(out_buf)@,
                out_pos as int,
                row_stride as int,
            ),
    {
        Self::upsample_rect(JpegSampleMode::JpegSampleMode440, blocks, out_buf, out_pos, row_stride)
    }

    /// Chroma halved both ways: a 16x16 MCU, the four luma blocks row by
    /// row, each chroma sample for a square of 2x2 pixels.
    fn upsampling420(blocks: &[JpegSampleBlock], out_buf: &mut [u8], out_pos: usize, row_stride: usize)
        requires
            blocks@.len() >= 6,
            rect_fits(old(out_buf)@.len() as int, out_pos as int, row_stride as int, 48, 16),
        ensures
            is_mcu_written(
                JpegSampleMode::JpegSampleMode420,
                block_samples(blocks@),
                old(out_buf)@,
                final(out_buf)@,
                out_pos as int,
                row_stride as int,
            ),
    {
        Self::upsample_rect(JpegSampleMode::JpegSampleMode420, blocks, out_buf, out_pos, row_stride)
    }

    /// The converted pixel at row `r` and column `c` of the MCU.
    fn pixel_at(mode: JpegSampleMode, blocks: &[JpegSampleBlock], r: usize, c: usize) -> (rgb: (
        u8,
        u8,
        u8,
    ))
        requires
            blocks@.len() >= mode.num_blocks(),
            r < mode.mcu_height(),
            c < mode.mcu_width(),
        ensures
            (rgb.0 as int, rgb.1 as int, rgb.2 as int) == mcu_pixel(
                mode,
                block_samples(blocks@),
                r as int,
                c as int,
            ),
    {
        let w = mode.get_mcu_width();
        let h = mode.get_mcu_height();
        let n = mode.get_num_blocks();
        let luma_block: usize = if w == 16 {
            (r / 8) * 2 + c / 8
        } else {
            r / 8 + c / 8
        };
        let y = blocks[luma_block].get_sample((r % 8) * 8 + c % 8);
        match mode {
            JpegSampleMode::JpegSampleModeNone => ycbcr_to_rgb(y, 0x80, 0x80),
            _ => {
                let chroma_row: usize = if h == 16 {
                    r / 2
                } else {
                    r
                };
                let chroma_column: usize = if w == 16 {
                    c / 2
                } else {
                    c
                };
                let chroma_index: usize = chroma_row * 8 + chroma_column;
                let cb = blocks[n - 2].get_sample(chroma_index);
                let cr = blocks[n - 1].get_sample(chroma_index);
                ycbcr_to_rgb(y, cb, cr)
            },
        }
    }

    /// Puts one pixel at index `i` of the raster.
    fn put_pixel(out_buf: &mut [u8], i: usize, rgb: (u8, u8, u8))
        requires
            i + 3 <= old(out_buf)@.len(),
        ensures
            final(out_buf)@ == old(out_buf)@.update(i as int, rgb.0).update(i + 1, rgb.1).update(
                i + 2,
                rgb.2,
            ),
    {
        out_buf[i] = rgb.0;
        out_buf[i + 1] = rgb.1;
        out_buf[i + 2] = rgb.2;
    }

    /// Writes the pixels of the MCU row by row, each row from left to
    /// right.
    fn upsample_rect(
        mode: JpegSampleMode,
        blocks: &[JpegSampleBlock],
        out_buf: &mut [u8],
        out_pos: usize,
        row_stride: usize,
    )
        requires
            blocks@.len() >= mode.num_blocks(),
            rect_fits(
                old(out_buf)@.len() as int,
                out_pos as int,
                row_stride as int,
                mode.mcu_width() * 3,
                mode.mcu_height(),
            ),
        ensures
            is_mcu_written(
                mode,
                block_samples(blocks@),
                old(out_buf)@,
                final(out_buf)@,
                out_pos as int,
                row_stride as int,
            ),
    {
        let ghost before = out_buf@;
        let ghost samples = block_samples(blocks@);
        let ghost start = out_pos as int;
        let ghost stride = row_stride as int;
        let w: usize = mode.get_mcu_width();
        let h: usize = mode.get_mcu_height();
        let ghost w3 = w * 3;
        proof {
            assert(out_buf@.len() == out_buf.len());
        }
        let mut row_start: usize = out_pos;
        let mut r: usize = 0;
        while r < h
            invariant
                0 <= r <= h,
                w == mode.mcu_width(),
                h == mode.mcu_height(),
                w3 == w * 3,
                start == out_pos,
                stride == row_stride,
                samples == block_samples(blocks@),
                blocks@.len() >= mode.num_blocks(),
                rect_fits(before.len() as int, start, stride, w3, h as int),
                out_buf@.len() == before.len(),
                before.len() <= usize::MAX,
                r < h ==> row_start == raster_index(start, stride, r as int, 0),
                forall|r1: int, b: int|
                    0 <= r1 < r && 0 <= b < w3 ==> out_buf@[#[trigger] raster_index(
                            start,
                            stride,
                            r1,
                            b,
                        )] as int
                        == mcu_byte(mode, samples, r1, b),
                forall|i: int|
                    0 <= i < before.len() && !in_rect(i, start, stride, w3, h as int)
                        ==> #[trigger] out_buf@[i] == before[i],
            decreases h - r,
        {
            proof {
                lemma_raster_rows(start, stride, r as int, h - 1);
            }
            let mut c: usize = 0;
            while c < w
                invariant
                    0 <= r < h,
                    0 <= c <= w,
                    w == mode.mcu_width(),
                    h == mode.mcu_height(),
                    w3 == w * 3,
                    start == out_pos,
                    stride == row_stride,
                    0 <= start,
                    w3 <= stride,
                    samples == block_samples(blocks@),
                    blocks@.len() >= mode.num_blocks(),
                    out_buf@.len() == before.len(),
                    before.len() <= usize::MAX,
                    row_start == raster_index(start, stride, r as int, 0),
                    row_start + w3 <= before.len(),
                    forall|r1: int, b: int|
                        0 <= r1 < r && 0 <= b < w3 ==> out_buf@[#[trigger] raster_index(
                            start,
                            stride,
                            r1,
                            b,
                        )] as int
                            == mcu_byte(mode, samples, r1, b),
                    forall|b: int|
                        0 <= b < c * 3 ==> out_buf@[#[trigger] raster_index(
                            start,
                            stride,
                            r as int,
                            b,
                        )] as int
                            == mcu_byte(mode, samples, r as int, b),
                    forall|i: int|
                        0 <= i < before.len() && !in_rect(i, start, stride, w3, h as int)
                            ==> #[trigger] out_buf@[i] == before[i],
                decreases w - c,
            {
                let rgb = Self::pixel_at(mode, blocks, r, c);
                let i: usize = row_start + c * 3;
                proof {
                    reveal(mcu_byte);
                }
                Self::put_pixel(out_buf, i, rgb);
                proof {
                    assert forall|r1: int, b: int| 0 <= r1 < r && 0 <= b < w3 implies out_buf@[#[trigger] raster_index(
                        start,
                        stride,
                        r1,
                        b,
                    )] as int == mcu_byte(mode, samples, r1, b) by {
                        lemma_raster_rows(start, stride, r1, r as int);
                    }
                }
                c = c + 1;
            }
            r = r + 1;
            if r < h {
                row_start = row_start + row_stride;
            }
        }
    }
}

/// The outcome of writing an MCU of `mode` from `num_blocks` blocks into a
/// raster of `len` bytes at `start`, when the raster is `width` pixels wide
/// and has `bpp` bytes for each pixel.
pub open spec fn upsampling_result(
    mode: JpegSampleMode,
    num_blocks: int,
    len: int,
    width: int,
    bpp: int,
    start: int,
) -> Result<(), JpegError> {
    if num_blocks < mode.num_blocks() {
        Err(JpegError::LogicError)
    } else if bpp != 3 {
        Err(JpegError::UnsupportedFeature)
    } else if !rect_fits(len, start, width * 3, mode.mcu_width() * 3, mode.mcu_height()) {
        Err(JpegError::BufferTooSmall)
    } else {
        Ok(())
    }
}

} // verus!
