//! The decoder: it scans the marker segments of a JPEG file for the
//! tables and the headers, and then decodes the entropy-coded data of the
//! one scan, MCU by MCU in raster order, into an RGB raster.

use vstd::prelude::*;
use crate::jpeg_error::JpegError;
use crate::jpeg_frame_info::empty_frame_header;
use crate::jpeg_frame_info::frame_header_at;
use crate::jpeg_frame_info::FrameHeader;
use crate::jpeg_frame_info::JpegFrameHeaderInfo;
use crate::jpeg_frame_info::scan_header_at;
use crate::jpeg_huffman_table::dht_definition_at;
use crate::jpeg_huffman_table::empty_tables;
use crate::jpeg_huffman_table::HuffmanTables;
use crate::jpeg_huffman_table::JpegDhtManager;
use crate::jpeg_outbuffer_info::JpegOutBufferInfo;
use crate::jpeg_quantization_table::dqt_definition_at;
use crate::jpeg_quantization_table::zero_tables;
use crate::jpeg_quantization_table::JpegDqtManager;
use crate::jpeg_raw_data::JpegBitStreamReader;
use crate::jpeg_raw_data::JpegRawData;
use crate::jpeg_raw_data::JpegReader;
use crate::jpeg_sample_block::JpegMinimumCodedUnit;
use crate::jpeg_sample_block::lemma_mcu_predictors;
use crate::jpeg_sample_block::mcu_coefficients_at;
use crate::jpeg_sample_block::mcu_dc_sum;
use crate::jpeg_sample_block::mcu_dequantization_fits;
use crate::jpeg_sample_block::mcu_dequantized;
use crate::jpeg_sample_block::mcu_layout_of;
use crate::jpeg_sample_block::mcu_transformed;
use crate::jpeg_sample_block::McuLayout;
use crate::jpeg_sample_block::ScanState;
use crate::jpeg_sampler::in_rect;
use crate::jpeg_sampler::is_mcu_written;
use crate::jpeg_sampler::JpegSampleMode;
use crate::jpeg_sampler::lemma_in_rect_bound;
use crate::jpeg_sampler::lemma_in_rect_rows;
use crate::jpeg_sampler::lemma_mcu_byte_in_range;
use crate::jpeg_sampler::lemma_raster_rows;
use crate::jpeg_sampler::lemma_raster_shift;
use crate::jpeg_sampler::mcu_byte;
use crate::jpeg_sampler::raster_index;
use crate::jpeg_sampler::rect_fits;

verus! {

/// Start of a baseline frame.
pub const JPEG_MARKER_SOF0: u16 = 0xFFC0;

/// Huffman table definitions.
pub const JPEG_MARKER_DHT: u16 = 0xFFC4;

/// Start of the image.
pub const JPEG_MARKER_SOI: u16 = 0xFFD8;

/// End of the image.
pub const JPEG_MARKER_EOI: u16 = 0xFFD9;

/// Start of a scan.
pub const JPEG_MARKER_SOS: u16 = 0xFFDA;

/// Quantization table definitions.
pub const JPEG_MARKER_DQT: u16 = 0xFFDB;

/// Restart interval definition.
pub const JPEG_MARKER_DRI: u16 = 0xFFDD;

/// A decoder for one JPEG file.
pub struct JpegControl {
    rawdata: JpegRawData,
    frame_header_info: JpegFrameHeaderInfo,
    dht_mgr: JpegDhtManager,
    dqt_mgr: JpegDqtManager,
    out_buffer_info: JpegOutBufferInfo,
    img_start: usize,
}

/// The mathematical content of a decoder: the bytes of the file and what
/// was taken from its marker segments.
pub struct DecoderView {
    pub data: Seq<u8>,
    pub frame: FrameHeader,
    pub huffman: HuffmanTables,
    pub quantization: Seq<Seq<u16>>,
    /// Where the entropy-coded data starts.
    pub img_start: int,
}

/// The content of a decoder before a file is loaded and its headers are
/// scanned: no bytes, empty headers and empty tables.
pub open spec fn initial_view() -> DecoderView {
    DecoderView {
        data: Seq::empty(),
        frame: empty_frame_header(),
        huffman: empty_tables(),
        quantization: zero_tables(),
        img_start: 0,
    }
}

/// Whether `m` is a marker that stands alone, without a segment: the start
/// or the end of the image.
pub open spec fn is_standalone_marker(m: int) -> bool {
    m == 0xFFD8 || m == 0xFFD9
}

/// Whether `m` is the marker of a feature that is not supported: a frame
/// other than a baseline frame (progressive, lossless, arithmetic coding)
/// or a restart interval.
pub open spec fn is_unsupported_marker(m: int) -> bool {
    (0xFFC1 <= m <= 0xFFCF && m != 0xFFC4) || m == 0xFFDD
}

/// Whether `m` is a marker that a segment with a length follows.
pub open spec fn is_segment_marker(m: int) -> bool {
    0xFF02 <= m <= 0xFFFE && !(0xFFD0 <= m <= 0xFFD9)
}

/// Number of bytes from `pos` up to `end`, the end of a segment.
pub open spec fn segment_rest(pos: int, end: int) -> nat {
    if pos < end {
        (end - pos) as nat
    } else {
        0
    }
}

/// The Huffman tables after the table definitions of a DHT segment, which
/// follow each other from `pos` up to `end`.
pub open spec fn dht_segment_at(tables: HuffmanTables, data: Seq<u8>, pos: int, end: int) -> Result<
    HuffmanTables,
    JpegError,
>
    decreases segment_rest(pos, end),
{
    if pos >= end {
        Ok(tables)
    } else {
        match dht_definition_at(tables, data, pos) {
            Err(e) => Err(e),
            Ok((next_tables, next)) => {
                dht_segment_at(next_tables, data, next, end)
            },
        }
    }
}

/// The quantization tables after the table definitions of a DQT segment,
/// which follow each other from `pos` up to `end`.
pub open spec fn dqt_segment_at(tables: Seq<Seq<u16>>, data: Seq<u8>, pos: int, end: int) -> Result<
    Seq<Seq<u16>>,
    JpegError,
>
    decreases segment_rest(pos, end),
{
    if pos >= end {
        Ok(tables)
    } else {
        match dqt_definition_at(tables, data, pos) {
            Err(e) => Err(e),
            Ok((next_tables, next)) => dqt_segment_at(next_tables, data, next, end),
        }
    }
}

/// What a decoder holds after the one marker segment at `pos`, the
/// position behind the segment, and whether the segment is the scan
/// header, behind which the entropy-coded data starts. A segment starts
/// with a marker of two bytes, and all but the start and the end of the
/// image go on with a length of two bytes that counts itself and the
/// content. Table definitions, the frame header and the scan header are
/// taken in; other segments are skipped.
pub open spec fn segment_at(d: DecoderView, pos: int) -> Result<(DecoderView, int, bool), JpegError> {
    let data = d.data;
    if pos < 0 || pos + 2 > data.len() {
        Err(JpegError::TruncatedInput)
    } else {
        let m = data[pos] * 256 + data[pos + 1];
        if is_standalone_marker(m) {
            Ok((d, pos + 2, false))
        } else if is_unsupported_marker(m) {
            Err(JpegError::UnsupportedFeature)
        } else if !is_segment_marker(m) {
            Err(JpegError::BadMarker)
        } else if pos + 4 > data.len() {
            Err(JpegError::TruncatedInput)
        } else {
            let size = data[pos + 2] * 256 + data[pos + 3];
            let end = pos + 2 + size;
            if size < 2 {
                Err(JpegError::LogicError)
            } else if end > data.len() {
                Err(JpegError::TruncatedInput)
            } else if m == 0xFFC4 {
                match dht_segment_at(d.huffman, data, pos + 4, end) {
                    Err(e) => Err(e),
                    Ok(tables) => Ok((DecoderView { huffman: tables, ..d }, end, false)),
                }
            } else if m == 0xFFDB {
                match dqt_segment_at(d.quantization, data, pos + 4, end) {
                    Err(e) => Err(e),
                    Ok(tables) => Ok((DecoderView { quantization: tables, ..d }, end, false)),
                }
            } else if m == 0xFFC0 {
                match frame_header_at(d.frame, data, pos + 4) {
                    Err(e) => Err(e),
                    Ok((frame, next)) => Ok((DecoderView { frame, ..d }, end, false)),
                }
            } else if m == 0xFFDA {
                match scan_header_at(d.frame, data, pos + 4) {
                    Err(e) => Err(e),
                    Ok((frame, next)) => Ok((DecoderView { frame, img_start: end, ..d }, end, true)),
                }
            } else {
                Ok((d, end, false))
            }
        }
    }
}

/// What a decoder holds after the marker segments from `pos` up to the
/// scan header.
pub open spec fn headers_at(d: DecoderView, pos: int) -> Result<DecoderView, JpegError>
    decreases d.data.len() - pos,
{
    match segment_at(d, pos) {
        Err(e) => Err(e),
        Ok((next_view, next, done)) => if done {
            Ok(next_view)
        } else {
            headers_at(next_view, next)
        },
    }
}

/// The samples of the blocks of the MCU that is read at the cursor of
/// `st`, and the state of the scan behind it: the coefficients are read,
/// dequantized and transformed.
pub open spec fn mcu_samples_at(
    layout: McuLayout,
    tables: HuffmanTables,
    qts: Seq<Seq<u16>>,
    data: Seq<u8>,
    st: ScanState,
) -> Result<(Seq<Seq<i16>>, ScanState), JpegError> {
    match mcu_coefficients_at(layout, tables, data, st, 0, Seq::empty()) {
        Err(e) => Err(e),
        Ok((coeffs, next)) => if mcu_dequantization_fits(layout, qts, coeffs) {
            Ok((mcu_transformed(layout, mcu_dequantized(layout, qts, coeffs)), next))
        } else {
            Err(JpegError::LogicError)
        },
    }
}

/// The state of the scan behind its first `j` MCUs. The scan starts at the
/// first bit of the entropy-coded data with every DC predictor zero.
pub open spec fn scan_state_after(d: DecoderView, layout: McuLayout, j: int) -> Result<
    ScanState,
    JpegError,
>
    decreases j,
{
    if j <= 0 {
        Ok(ScanState { pos: d.img_start, bit: 0, predictors: Seq::new(3, |c: int| 0i16) })
    } else {
        match scan_state_after(d, layout, j - 1) {
            Err(e) => Err(e),
            Ok(st) => match mcu_samples_at(layout, d.huffman, d.quantization, d.data, st) {
                Err(e) => Err(e),
                Ok((samples, next)) => Ok(next),
            },
        }
    }
}

/// The samples of the blocks of MCU `j` of the scan.
#[verifier::opaque]
pub open spec fn mcu_samples(d: DecoderView, layout: McuLayout, j: int) -> Seq<Seq<i16>> {
    match scan_state_after(d, layout, j) {
        Err(e) => Seq::empty(),
        Ok(st) => match mcu_samples_at(layout, d.huffman, d.quantization, d.data, st) {
            Err(e) => Seq::empty(),
            Ok((samples, next)) => samples,
        },
    }
}

/// Number of MCUs in one row of MCUs of the image.
pub open spec fn mcus_per_row(d: DecoderView, layout: McuLayout) -> int {
    layout.mode.mcu_column(d.frame.width)
}

/// Number of rows of MCUs of the image.
pub open spec fn mcu_rows(d: DecoderView, layout: McuLayout) -> int {
    layout.mode.mcu_row(d.frame.height)
}

/// Byte `b` of pixel row `y` of the image: the bytes of a row are the red,
/// green and blue samples of its pixels from left to right. The pixel
/// belongs to the MCU whose rectangle holds it; the MCUs are numbered row
/// by row.
pub open spec fn image_byte(d: DecoderView, layout: McuLayout, y: int, b: int) -> int {
    let mode = layout.mode;
    let row = mode.mcu_row(y);
    let column = mode.mcu_column(b / 3);
    mcu_byte(
        mode,
        mcu_samples(d, layout, row * mcus_per_row(d, layout) + column),
        y - mode.pixel_rows(row),
        b - 3 * mode.pixel_columns(column),
    )
}

/// Whether the raster `out` holds the pixel rows of the decoded image from
/// row `from` up to row `to`, in each row the bytes in front of byte
/// `bytes`. The rows of the raster follow each other from the top, three
/// bytes for each pixel.
pub open spec fn is_part_decoded(
    d: DecoderView,
    layout: McuLayout,
    out: Seq<u8>,
    from: int,
    to: int,
    bytes: int,
) -> bool {
    forall|y: int, b: int|
        from <= y < to && 0 <= b < bytes ==> out[raster_index(0, d.frame.width * 3, y, b)] as int
            == #[trigger] image_byte(d, layout, y, b)
}

/// Whether the raster `out` holds the decoded image.
pub open spec fn is_image_decoded(d: DecoderView, layout: McuLayout, out: Seq<u8>) -> bool {
    is_part_decoded(d, layout, out, 0, d.frame.height, d.frame.width * 3)
}

/// Whether `after` is `before` from index `from` on.
pub open spec fn is_tail_unchanged(before: Seq<u8>, after: Seq<u8>, from: int) -> bool {
    &&& after.len() == before.len()
    &&& forall|i: int| from <= i < before.len() ==> #[trigger] after[i] == before[i]
}

/// The outcome of decoding the image into a buffer of `out_len` bytes.
/// The buffer has to hold the image. The sampling factors have to be
/// supported, and the width and the height have to be multiples of the
/// width and the height of an MCU. Then every MCU of the scan has to
/// decode.
pub open spec fn decode_result(d: DecoderView, out_len: int) -> Result<(), JpegError> {
    if out_len < d.frame.width * d.frame.height * 3 {
        Err(JpegError::BufferTooSmall)
    } else {
        match mcu_layout_of(d.frame) {
            None => Err(JpegError::UnsupportedFeature),
            Some(layout) => if d.frame.width != layout.mode.pixel_columns(mcus_per_row(d, layout))
                || d.frame.height != layout.mode.pixel_rows(mcu_rows(d, layout)) {
                Err(JpegError::UnsupportedFeature)
            } else {
                match scan_state_after(d, layout, mcu_rows(d, layout) * mcus_per_row(d, layout)) {
                    Err(e) => Err(e),
                    Ok(st) => Ok(()),
                }
            },
        }
    }
}

/// The sum of the DC differences that are read for component slot `c` in
/// the first `j` MCUs of the scan.
pub open spec fn scan_dc_sum(d: DecoderView, layout: McuLayout, j: int, c: int) -> int
    decreases j,
{
    if j <= 0 {
        0
    } else {
        scan_dc_sum(d, layout, j - 1, c) + match scan_state_after(d, layout, j - 1) {
            Ok(st) => mcu_dc_sum(layout, d.huffman, d.data, st, 0, c),
            Err(e) => 0,
        }
    }
}

/// The DC predictor of each component behind the first `j` MCUs of the
/// scan is the sum of all DC differences that were read for the component
/// since the start of the scan.
pub proof fn lemma_predictor_is_sum_of_differences(d: DecoderView, layout: McuLayout, j: int, c: int)
    requires
        0 <= j,
        0 <= c < 3,
    ensures
        scan_state_after(d, layout, j) matches Ok(st) ==> st.predictors.len() == 3
            && st.predictors[c] == scan_dc_sum(d, layout, j, c),
    decreases j,
{
    if j > 0 {
        lemma_predictor_is_sum_of_differences(d, layout, j - 1, c);
        match scan_state_after(d, layout, j - 1) {
            Err(e) => {},
            Ok(st) => {
                lemma_mcu_predictors(layout, d.huffman, d.data, st, 0, Seq::empty(), c);
            },
        }
    }
}

/// Every byte of the decoded image lies in `0..=255`.
pub proof fn lemma_image_byte_in_range(d: DecoderView, layout: McuLayout, y: int, b: int)
    ensures
        0 <= image_byte(d, layout, y, b) <= 255,
{
    let mode = layout.mode;
    let row = mode.mcu_row(y);
    let column = mode.mcu_column(b / 3);
    lemma_mcu_byte_in_range(
        mode,
        mcu_samples(d, layout, row * mcus_per_row(d, layout) + column),
        y - mode.pixel_rows(row),
        b - 3 * mode.pixel_columns(column),
    );
}

/// MCU `j` of the scan is the MCU that is read in the state behind the
/// first `j` MCUs, and the state behind it is the state behind the first
/// `j + 1` MCUs.
pub proof fn lemma_scan_step(d: DecoderView, layout: McuLayout, j: int, st: ScanState)
    requires
        0 <= j,
        scan_state_after(d, layout, j) == Ok::<ScanState, JpegError>(st),
    ensures
        match mcu_samples_at(layout, d.huffman, d.quantization, d.data, st) {
            Ok((samples, next)) => scan_state_after(d, layout, j + 1) == Ok::<ScanState, JpegError>(
                next,
            ) && mcu_samples(d, layout, j) == samples,
            Err(e) => scan_state_after(d, layout, j + 1) == Err::<ScanState, JpegError>(e),
        },
{
    reveal(mcu_samples);
}

/// A scan that reaches MCU `k` has reached every MCU before it.
pub proof fn lemma_scan_state_prefix(d: DecoderView, layout: McuLayout, j: int, k: int)
    requires
        0 <= j <= k,
        scan_state_after(d, layout, j) is Err,
    ensures
        scan_state_after(d, layout, k) == scan_state_after(d, layout, j),
    decreases k - j,
{
    if j < k {
        lemma_scan_state_prefix(d, layout, j, k - 1);
    }
}

/// Writing MCU `j` of the scan, the MCU in column `x` of row `y` of
/// MCUs, to its rectangle adds its pixels to the part of the image that the
/// raster holds and leaves the rest of the raster as it was.
pub proof fn lemma_mcu_written_extends_image(
    d: DecoderView,
    layout: McuLayout,
    initial: Seq<u8>,
    prior: Seq<u8>,
    out: Seq<u8>,
    x: int,
    y: int,
)
    requires
        d.frame.width == layout.mode.pixel_columns(mcus_per_row(d, layout)),
        d.frame.height == layout.mode.pixel_rows(mcu_rows(d, layout)),
        0 <= x < mcus_per_row(d, layout),
        0 <= y < mcu_rows(d, layout),
        is_mcu_written(
            layout.mode,
            mcu_samples(d, layout, y * mcus_per_row(d, layout) + x),
            prior,
            out,
            raster_index(0, d.frame.width * 3, layout.mode.pixel_rows(y), 3 * layout.mode.pixel_columns(x)),
            d.frame.width * 3,
        ),
        is_part_decoded(d, layout, prior, 0, layout.mode.pixel_rows(y), d.frame.width * 3),
        is_part_decoded(
            d,
            layout,
            prior,
            layout.mode.pixel_rows(y),
            layout.mode.pixel_rows(y + 1),
            3 * layout.mode.pixel_columns(x),
        ),
        is_tail_unchanged(initial, prior, raster_index(0, d.frame.width * 3, d.frame.height, 0)),
        raster_index(0, d.frame.width * 3, d.frame.height, 0) <= initial.len(),
    ensures
        is_part_decoded(d, layout, out, 0, layout.mode.pixel_rows(y), d.frame.width * 3),
        is_part_decoded(
            d,
            layout,
            out,
            layout.mode.pixel_rows(y),
            layout.mode.pixel_rows(y + 1),
            3 * layout.mode.pixel_columns(x + 1),
        ),
        is_tail_unchanged(initial, out, raster_index(0, d.frame.width * 3, d.frame.height, 0)),
{
    let mode = layout.mode;
    let stride = d.frame.width * 3;
    let row0 = mode.pixel_rows(y);
    let col3 = 3 * mode.pixel_columns(x);
    let w3 = mode.mcu_width() * 3;
    let h = mode.mcu_height();
    let start = raster_index(0, stride, row0, col3);
    assert forall|yy: int, b: int| 0 <= yy < row0 && 0 <= b < stride implies out[raster_index(
        0,
        stride,
        yy,
        b,
    )] as int == #[trigger] image_byte(d, layout, yy, b) by {
        let i = raster_index(0, stride, yy, b);
        if in_rect(i, start, stride, w3, h) {
            lemma_in_rect_rows(stride, row0, col3, w3, h, yy, b);
        }
        lemma_raster_rows(0, stride, yy, d.frame.height - 1);
        lemma_raster_rows(0, stride, d.frame.height - 1, d.frame.height);
    }
    assert forall|yy: int, b: int| row0 <= yy < row0 + h && 0 <= b < col3 + w3 implies out[raster_index(
        0,
        stride,
        yy,
        b,
    )] as int == #[trigger] image_byte(d, layout, yy, b) by {
        let i = raster_index(0, stride, yy, b);
        if b < col3 {
            if in_rect(i, start, stride, w3, h) {
                lemma_in_rect_rows(stride, row0, col3, w3, h, yy, b);
            }
            lemma_raster_rows(0, stride, yy, d.frame.height - 1);
            lemma_raster_rows(0, stride, d.frame.height - 1, d.frame.height);
        } else {
            lemma_raster_shift(stride, row0, col3, yy - row0, b - col3);
        }
    }
    assert forall|i: int| raster_index(0, stride, d.frame.height, 0) <= i < initial.len() implies #[trigger] out[i]
        == initial[i] by {
        if in_rect(i, start, stride, w3, h) {
            lemma_in_rect_bound(i, stride, row0, col3, w3, h);
            lemma_raster_rows(0, stride, row0 + h, d.frame.height);
        }
    }
}

impl View for JpegControl {
    type V = DecoderView;

    closed spec fn view(&self) -> DecoderView {
        DecoderView {
            data: self.rawdata@,
            frame: self.frame_header_info@,
            huffman: self.dht_mgr@,
            quantization: self.dqt_mgr@,
            img_start: self.img_start as int,
        }
    }
}

impl JpegControl {
    /// The headers and the tables are well formed.
    pub closed spec fn tables_wf(&self) -> bool {
        &&& self.frame_header_info.wf()
        &&& self.dht_mgr.wf()
    }

    /// The headers and the tables are well formed, and the geometry of the
    /// output raster is that of the frame, with three bytes for each
    /// pixel.
    pub closed spec fn wf(&self) -> bool {
        &&& self.tables_wf()
        &&& self.out_buffer_info.width() == self.frame_header_info@.width
        &&& self.out_buffer_info.height() == self.frame_header_info@.height
        &&& self.out_buffer_info.bpp() == 3
    }

    /// A decoder without a file: it holds no bytes, headers of an image
    /// without pixels or components, Huffman tables without codes and
    /// quantization tables of zeros.
    pub fn new() -> (c: Self)
        ensures
            c.wf(),
            c@ == initial_view(),
    {
        JpegControl {
            rawdata: JpegRawData::new(),
            frame_header_info: JpegFrameHeaderInfo::new(),
            dht_mgr: JpegDhtManager::new(),
            dqt_mgr: JpegDqtManager::new(),
            out_buffer_info: JpegOutBufferInfo::new(),
            img_start: 0,
        }
    }

    /// Takes the bytes of a file. The headers and tables stay as they
    /// were.
    pub fn load(&mut self, bytes: Vec<u8>)
        requires
            old(self).wf(),
        ensures
            final(self).wf(),
            final(self)@ == (DecoderView { data: bytes@, ..old(self)@ }),
    {
        self.rawdata.load(bytes);
    }

    /// The bytes of the file.
    pub fn get_raw_data(&self) -> (r: &JpegRawData)
        ensures
            r@ == self@.data,
    {
        &self.rawdata
    }

    /// The frame header and the scan header.
    pub fn get_frame_header_info(&self) -> (h: &JpegFrameHeaderInfo)
        requires
            self.wf(),
        ensures
            h.wf(),
            h@ == self@.frame,
    {
        &self.frame_header_info
    }

    /// The Huffman tables.
    pub fn get_dht_manager(&self) -> (m: &JpegDhtManager)
        requires
            self.wf(),
        ensures
            m.wf(),
            m@ == self@.huffman,
    {
        &self.dht_mgr
    }

    /// The quantization tables.
    pub fn get_dqt_manager(&self) -> (m: &JpegDqtManager)
        ensures
            m@ == self@.quantization,
    {
        &self.dqt_mgr
    }

    /// Where the entropy-coded data starts.
    pub fn get_image_start(&self) -> (p: usize)
        ensures
            p == self@.img_start,
    {
        self.img_start
    }

    /// Width and height of the image in pixels.
    pub fn get_dimension(&self) -> (d: (usize, usize))
        ensures
            d.0 == self@.frame.width,
            d.1 == self@.frame.height,
    {
        self.frame_header_info.get_dimension()
    }

    /// Reads the table definitions of a DHT segment that ends at `end`.
    fn parse_dht_segment(dht: &mut JpegDhtManager, reader: &mut JpegReader, end: usize) -> (r: Result<
        (),
        JpegError,
    >)
        requires
            old(dht).wf(),
        ensures
            final(dht).wf(),
            final(reader).data() == old(reader).data(),
            match dht_segment_at(old(dht)@, old(reader).data(), old(reader).pos(), end as int) {
                Ok(tables) => r == Ok::<(), JpegError>(()) && final(dht)@ == tables,
                Err(e) => r == Err::<(), JpegError>(e),
            },
    {
        while reader.get_pos() < end
            invariant
                dht.wf(),
                reader.data() == old(reader).data(),
                dht_segment_at(dht@, reader.data(), reader.pos(), end as int) == dht_segment_at(
                    old(dht)@,
                    old(reader).data(),
                    old(reader).pos(),
                    end as int,
                ),
            decreases segment_rest(reader.pos(), end as int),
        {
            match dht.parse_segment(reader) {
                Ok(()) => {},
                Err(e) => {
                    return Err(e);
                },
            }
        }
        Ok(())
    }

    /// Reads the table definitions of a DQT segment that ends at `end`.
    fn parse_dqt_segment(dqt: &mut JpegDqtManager, reader: &mut JpegReader, end: usize) -> (r: Result<
        (),
        JpegError,
    >)
        ensures
            final(reader).data() == old(reader).data(),
            match dqt_segment_at(old(dqt)@, old(reader).data(), old(reader).pos(), end as int) {
                Ok(tables) => r == Ok::<(), JpegError>(()) && final(dqt)@ == tables,
                Err(e) => r == Err::<(), JpegError>(e),
            },
    {
        while reader.get_pos() < end
            invariant
                reader.data() == old(reader).data(),
                dqt_segment_at(dqt@, reader.data(), reader.pos(), end as int) == dqt_segment_at(
                    old(dqt)@,
                    old(reader).data(),
                    old(reader).pos(),
                    end as int,
                ),
            decreases segment_rest(reader.pos(), end as int),
        {
            match dqt.read_table(reader) {
                Ok(()) => {},
                Err(e) => {
                    return Err(e);
                },
            }
        }
        Ok(())
    }

    /// Reads the one marker segment at the reader and takes in what it
    /// defines. Gives the position behind the scan header if the segment is
    /// the scan header, and nothing otherwise.
    fn parse_segment(
        frame: &mut JpegFrameHeaderInfo,
        dht: &mut JpegDhtManager,
        dqt: &mut JpegDqtManager,
        reader: &mut JpegReader,
        size: usize,
        Ghost(img_start): Ghost<int>,
    ) -> (r: Result<Option<usize>, JpegError>)
        requires
            old(frame).wf(),
            old(dht).wf(),
            size == old(reader).data().len(),
        ensures
            final(frame).wf(),
            final(dht).wf(),
            final(reader).data() == old(reader).data(),
            match segment_at(
                DecoderView {
                    data: old(reader).data(),
                    frame: old(frame)@,
                    huffman: old(dht)@,
                    quantization: old(dqt)@,
                    img_start,
                },
                old(reader).pos(),
            ) {
                Ok((d, next, done)) => {
                    &&& r == Ok::<Option<usize>, JpegError>(
                        if done {
                            Some(next as usize)
                        } else {
                            None
                        },
                    )
                    &&& final(reader).pos() == next
                    &&& final(frame)@ == d.frame
                    &&& final(dht)@ == d.huffman
                    &&& final(dqt)@ == d.quantization
                    &&& (if done {
                        d.img_start == next
                    } else {
                        d.img_start == img_start
                    })
                },
                Err(e) => r == Err::<Option<usize>, JpegError>(e),
            },
    {
        proof {
            reader.lemma_pos_bounds();
        }
        let m = match reader.read_u16be() {
            Ok(v) => v,
            Err(e) => {
                return Err(e);
            },
        };
        if m == JPEG_MARKER_SOI || m == JPEG_MARKER_EOI {
            return Ok(None);
        }
        if (m >= 0xFFC1 && m <= 0xFFCF && m != JPEG_MARKER_DHT) || m == JPEG_MARKER_DRI {
            return Err(JpegError::UnsupportedFeature);
        }
        if m < 0xFF02 || m > 0xFFFE || (m >= 0xFFD0 && m <= 0xFFD9) {
            return Err(JpegError::BadMarker);
        }
        let seg_size: usize = match reader.read_u16be() {
            Ok(v) => v as usize,
            Err(e) => {
                return Err(e);
            },
        };
        if seg_size < 2 {
            return Err(JpegError::LogicError);
        }
        let content: usize = reader.get_pos();
        if seg_size - 2 > size - content {
            return Err(JpegError::TruncatedInput);
        }
        let end: usize = content + (seg_size - 2);
        let mut reader2 = reader.copy();
        reader.set_pos(end);
        if m == JPEG_MARKER_DHT {
            match Self::parse_dht_segment(dht, &mut reader2, end) {
                Ok(()) => Ok(None),
                Err(e) => Err(e),
            }
        } else if m == JPEG_MARKER_DQT {
            match Self::parse_dqt_segment(dqt, &mut reader2, end) {
                Ok(()) => Ok(None),
                Err(e) => Err(e),
            }
        } else if m == JPEG_MARKER_SOF0 {
            match frame.parse_segment(&mut reader2) {
                Ok(()) => Ok(None),
                Err(e) => Err(e),
            }
        } else if m == JPEG_MARKER_SOS {
            match frame.parse_scan_segment(&mut reader2) {
                Ok(()) => Ok(Some(end)),
                Err(e) => Err(e),
            }
        } else {
            Ok(None)
        }
    }

    /// Walks the marker segments up to the scan header and takes in the
    /// tables and the headers.
    fn scan_segments(&mut self) -> (r: Result<(), JpegError>)
        requires
            old(self).tables_wf(),
        ensures
            final(self).tables_wf(),
            final(self)@.data == old(self)@.data,
            final(self).out_buffer_info == old(self).out_buffer_info,
            match headers_at(old(self)@, 0) {
                Ok(d) => r == Ok::<(), JpegError>(()) && final(self)@ == d,
                Err(e) => r == Err::<(), JpegError>(e),
            },
    {
        let ghost data = self@.data;
        let mut reader = JpegReader::new(&self.rawdata);
        let size: usize = self.rawdata.get_size();
        loop
            invariant
                self.tables_wf(),
                self@.data == data,
                data == old(self)@.data,
                self.out_buffer_info == old(self).out_buffer_info,
                reader.data() == data,
                size == data.len(),
                headers_at(self@, reader.pos()) == headers_at(old(self)@, 0),
            decreases data.len() - reader.pos(),
        {
            match Self::parse_segment(
                &mut self.frame_header_info,
                &mut self.dht_mgr,
                &mut self.dqt_mgr,
                &mut reader,
                size,
                Ghost(self.img_start as int),
            ) {
                Ok(Some(img_start)) => {
                    self.img_start = img_start;
                    return Ok(());
                },
                Ok(None) => {},
                Err(e) => {
                    return Err(e);
                },
            }
        }
    }

    /// Scans the marker segments of the file up to the scan header and
    /// takes in the tables and the headers. Gives the width and the height
    /// of the image and the number of bytes that a buffer for the decoded
    /// image needs. On failure the headers and tables taken in so far
    /// stay.
    pub fn parse_markers(&mut self) -> (r: Result<(usize, usize, usize), JpegError>)
        requires
            old(self).wf(),
        ensures
            final(self).wf(),
            final(self)@.data == old(self)@.data,
            match headers_at(old(self)@, 0) {
                Ok(d) => final(self)@ == d && r == if d.frame.width * d.frame.height * 3
                    <= usize::MAX {
                    Ok::<(usize, usize, usize), JpegError>(
                        (
                            d.frame.width as usize,
                            d.frame.height as usize,
                            (d.frame.width * d.frame.height * 3) as usize,
                        ),
                    )
                } else {
                    Err::<(usize, usize, usize), JpegError>(JpegError::BufferTooSmall)
                },
                Err(e) => r == Err::<(usize, usize, usize), JpegError>(e),
            },
    {
        let result = self.scan_segments();
        let (wd, ht) = self.frame_header_info.get_dimension();
        proof {
            self.frame_header_info.lemma_view_valid();
        }
        self.out_buffer_info.set_parameters(wd, ht, 3);
        match result {
            Err(e) => Err(e),
            Ok(()) => match self.out_buffer_info.checked_total_buffer_size() {
                Some(n) => Ok((wd, ht, n)),
                None => Err(JpegError::BufferTooSmall),
            },
        }
    }

    /// Number of bytes that a buffer for the decoded image needs.
    pub fn get_total_buffer_size(&self) -> (n: usize)
        requires
            self.wf(),
            self@.frame.width * self@.frame.height * 3 <= usize::MAX,
        ensures
            n == self@.frame.width * self@.frame.height * 3,
    {
        self.out_buffer_info.get_total_buffer_size()
    }

    /// Number of MCUs in a row of MCUs and number of rows of MCUs, if the
    /// width and the height are multiples of those of an MCU.
    fn count_mcus(mode: JpegSampleMode, width: usize, height: usize) -> (r: Option<(usize, usize)>)
        ensures
            match r {
                Some((nx, ny)) => nx == mode.mcu_column(width as int) && ny == mode.mcu_row(
                    height as int,
                ) && width == mode.pixel_columns(nx as int) && height == mode.pixel_rows(ny as int),
                None => width != mode.pixel_columns(mode.mcu_column(width as int)) || height
                    != mode.pixel_rows(mode.mcu_row(height as int)),
            },
    {
        let nx: usize = if mode.get_mcu_width() == 16 {
            if width % 16 != 0 {
                return None;
            }
            width / 16
        } else {
            if width % 8 != 0 {
                return None;
            }
            width / 8
        };
        let ny: usize = if mode.get_mcu_height() == 16 {
            if height % 16 != 0 {
                return None;
            }
            height / 16
        } else {
            if height % 8 != 0 {
                return None;
            }
            height / 8
        };
        Some((nx, ny))
    }

    /// Decodes the next MCU of the scan and writes its pixels to the
    /// rectangle of the raster that starts at `out_pos`.
    fn decode_mcu(
        &self,
        mcu: &mut JpegMinimumCodedUnit,
        bsreader: &mut JpegBitStreamReader,
        out_buf: &mut [u8],
        out_pos: usize,
    ) -> (r: Result<(), JpegError>)
        requires
            self.wf(),
            old(mcu).wf(),
            old(bsreader).wf(),
            old(bsreader).data() == self@.data,
            rect_fits(
                old(out_buf)@.len() as int,
                out_pos as int,
                self@.frame.width * 3,
                old(mcu).layout().mode.mcu_width() * 3,
                old(mcu).layout().mode.mcu_height(),
            ),
        ensures
            final(mcu).wf(),
            final(mcu).layout() == old(mcu).layout(),
            final(bsreader).wf(),
            final(bsreader).data() == old(bsreader).data(),
            final(out_buf)@.len() == old(out_buf)@.len(),
            match mcu_samples_at(
                old(mcu).layout(),
                self@.huffman,
                self@.quantization,
                self@.data,
                ScanState {
                    pos: old(bsreader).pos(),
                    bit: old(bsreader).bit(),
                    predictors: old(mcu).predictors(),
                },
            ) {
                Ok((samples, st)) => {
                    &&& r == Ok::<(), JpegError>(())
                    &&& final(mcu).predictors() == st.predictors
                    &&& final(bsreader).pos() == st.pos
                    &&& final(bsreader).bit() == st.bit
                    &&& is_mcu_written(
                        old(mcu).layout().mode,
                        samples,
                        old(out_buf)@,
                        final(out_buf)@,
                        out_pos as int,
                        self@.frame.width * 3,
                    )
                },
                Err(e) => r == Err::<(), JpegError>(e),
            },
    {
        match mcu.fill_coefficients(&self.dht_mgr, bsreader) {
            Ok(()) => {},
            Err(e) => {
                return Err(e);
            },
        }
        match mcu.dequantize(&self.dqt_mgr) {
            Ok(()) => {},
            Err(e) => {
                return Err(e);
            },
        }
        mcu.transform();
        mcu.upsampling(out_buf, &self.out_buffer_info, out_pos)
    }

    /// Decodes the MCUs of the scan in raster order and writes each to its
    /// rectangle of the raster.
    fn decode_scan(
        &self,
        mcu: &mut JpegMinimumCodedUnit,
        bsreader: &mut JpegBitStreamReader,
        out_buf: &mut [u8],
        num_iter_x: usize,
        num_iter_y: usize,
    ) -> (r: Result<(), JpegError>)
        requires
            self.wf(),
            old(mcu).wf(),
            mcu_layout_of(self@.frame) == Some(old(mcu).layout()),
            old(mcu).predictors() == Seq::new(3, |c: int| 0i16),
            old(bsreader).wf(),
            old(bsreader).data() == self@.data,
            old(bsreader).pos() == self@.img_start,
            old(bsreader).bit() == 0,
            num_iter_x == mcus_per_row(self@, old(mcu).layout()),
            num_iter_y == mcu_rows(self@, old(mcu).layout()),
            self@.frame.width == old(mcu).layout().mode.pixel_columns(num_iter_x as int),
            self@.frame.height == old(mcu).layout().mode.pixel_rows(num_iter_y as int),
            self@.frame.width * self@.frame.height * 3 <= old(out_buf)@.len(),
        ensures
            final(out_buf)@.len() == old(out_buf)@.len(),
            match scan_state_after(self@, old(mcu).layout(), num_iter_y * num_iter_x) {
                Ok(st) => {
                    &&& r == Ok::<(), JpegError>(())
                    &&& is_image_decoded(self@, old(mcu).layout(), final(out_buf)@)
                    &&& is_tail_unchanged(
                        old(out_buf)@,
                        final(out_buf)@,
                        self@.frame.width * self@.frame.height * 3,
                    )
                },
                Err(e) => r == Err::<(), JpegError>(e),
            },
    {
        let ghost d = self@;
        let ghost initial = out_buf@;
        let ghost layout = mcu.layout();
        proof {
            assert(out_buf@.len() == out_buf.len());
        }
        let mode = mcu.get_sampling_mode();
        let (width, height) = self.out_buffer_info.get_dimension();
        proof {
            self.out_buffer_info.lemma_bounds();
        }
        let row_stride: usize = width * 3;
        let mcu_width: usize = mcu.get_width();
        let mcu_height: usize = mcu.get_height();
        let stride_h: usize = mcu_width * 3;
        assert(row_stride * mcu_height <= 196605 * 16) by (nonlinear_arith)
            requires
                0 <= row_stride <= 196605,
                0 <= mcu_height <= 16,
        ;
        let stride_v: usize = row_stride * mcu_height;
        let ghost stride = row_stride as int;
        let ghost total = raster_index(0, stride, height as int, 0);
        proof {
            assert(raster_index(0, stride, height as int, 0) == width * height * 3) by (nonlinear_arith)
                requires
                    stride == width * 3,
            ;
            assert(num_iter_y * num_iter_x >= 0) by (nonlinear_arith)
                requires
                    num_iter_y >= 0,
                    num_iter_x >= 0,
            ;
            assert(mode.pixel_rows(0) == 0);
            assert(mcu_height * stride >= stride) by (nonlinear_arith)
                requires
                    mcu_height >= 1,
                    stride >= 0,
            ;
        }

        // Iteration of each MCU decode
        let mut row_pos: usize = 0;
        let mut y: usize = 0;
        while y < num_iter_y
            invariant
                self.wf(),
                d == self@,
                mcu.wf(),
                mcu.layout() == layout,
                layout == old(mcu).layout(),
                mode == layout.mode,
                bsreader.wf(),
                bsreader.data() == d.data,
                initial == old(out_buf)@,
                out_buf@.len() == initial.len(),
                initial.len() <= usize::MAX,
                mcu_height * stride >= stride,
                width == d.frame.width,
                height == d.frame.height,
                stride == width * 3,
                row_stride == stride,
                mcu_width == mode.mcu_width(),
                mcu_height == mode.mcu_height(),
                stride_h == mcu_width * 3,
                stride_v == row_stride * mcu_height,
                num_iter_x == mcus_per_row(d, layout),
                num_iter_y == mcu_rows(d, layout),
                width == mode.pixel_columns(num_iter_x as int),
                height == mode.pixel_rows(num_iter_y as int),
                total == raster_index(0, stride, height as int, 0),
                total == d.frame.width * d.frame.height * 3,
                total <= initial.len(),
                0 <= y <= num_iter_y,
                row_pos == raster_index(0, stride, mode.pixel_rows(y as int), 0),
                scan_state_after(d, layout, y * num_iter_x) == Ok::<ScanState, JpegError>(
                    ScanState { pos: bsreader.pos(), bit: bsreader.bit(), predictors: mcu.predictors() },
                ),
                is_part_decoded(d, layout, out_buf@, 0, mode.pixel_rows(y as int), stride),
                is_tail_unchanged(initial, out_buf@, total),
            decreases num_iter_y - y,
        {
            let mut out_pos: usize = row_pos;
            let mut x: usize = 0;
            proof {
                lemma_raster_rows(0, stride, mode.pixel_rows(y as int), mode.pixel_rows(y + 1));
                lemma_raster_rows(0, stride, mode.pixel_rows(y + 1), height as int);
            }
            while x < num_iter_x
                invariant
                    self.wf(),
                    d == self@,
                    mcu.wf(),
                    mcu.layout() == layout,
                    layout == old(mcu).layout(),
                    mode == layout.mode,
                    bsreader.wf(),
                    bsreader.data() == d.data,
                    initial == old(out_buf)@,
                    out_buf@.len() == initial.len(),
                    initial.len() <= usize::MAX,
                    mcu_height * stride >= stride,
                    width == d.frame.width,
                    height == d.frame.height,
                    stride == width * 3,
                    row_stride == stride,
                    mcu_width == mode.mcu_width(),
                    mcu_height == mode.mcu_height(),
                    stride_h == mcu_width * 3,
                    num_iter_x == mcus_per_row(d, layout),
                    num_iter_y == mcu_rows(d, layout),
                    width == mode.pixel_columns(num_iter_x as int),
                    height == mode.pixel_rows(num_iter_y as int),
                    total == raster_index(0, stride, height as int, 0),
                    total == d.frame.width * d.frame.height * 3,
                    total <= initial.len(),
                    0 <= y < num_iter_y,
                    0 <= x <= num_iter_x,
                    row_pos == raster_index(0, stride, mode.pixel_rows(y as int), 0),
                    raster_index(0, stride, mode.pixel_rows(y + 1), 0) <= total,
                    row_pos + mcu_height * stride == raster_index(0, stride, mode.pixel_rows(y + 1), 0),
                    out_pos == row_pos + 3 * mode.pixel_columns(x as int),
                    scan_state_after(d, layout, y * num_iter_x + x) == Ok::<ScanState, JpegError>(
                        ScanState {
                            pos: bsreader.pos(),
                            bit: bsreader.bit(),
                            predictors: mcu.predictors(),
                        },
                    ),
                    is_part_decoded(d, layout, out_buf@, 0, mode.pixel_rows(y as int), stride),
                    is_part_decoded(
                        d,
                        layout,
                        out_buf@,
                        mode.pixel_rows(y as int),
                        mode.pixel_rows(y + 1),
                        3 * mode.pixel_columns(x as int),
                    ),
                    is_tail_unchanged(initial, out_buf@, total),
                decreases num_iter_x - x,
            {
                let ghost prior = out_buf@;
                let ghost j = y * num_iter_x + x;
                proof {
                    lemma_scan_step(
                        d,
                        layout,
                        j,
                        ScanState {
                            pos: bsreader.pos(),
                            bit: bsreader.bit(),
                            predictors: mcu.predictors(),
                        },
                    );
                    assert(j + 1 <= num_iter_y * num_iter_x) by (nonlinear_arith)
                        requires
                            j == y * num_iter_x + x,
                            0 <= x < num_iter_x,
                            0 <= y < num_iter_y,
                    ;
                    assert((mcu_height - 1) * stride + stride == mcu_height * stride) by (nonlinear_arith);
                }
                match self.decode_mcu(mcu, bsreader, out_buf, out_pos) {
                    Ok(()) => {},
                    Err(e) => {
                        proof {
                            lemma_scan_state_prefix(d, layout, j + 1, num_iter_y * num_iter_x);
                        }
                        return Err(e);
                    },
                }
                proof {
                    lemma_mcu_written_extends_image(d, layout, initial, prior, out_buf@, x as int, y as int);
                }
                out_pos = out_pos + stride_h;
                x = x + 1;
            }
            proof {
                assert((y + 1) * num_iter_x == y * num_iter_x + num_iter_x) by (nonlinear_arith);
                assert(row_stride * mcu_height == mcu_height * stride) by (nonlinear_arith)
                    requires
                        row_stride == stride,
                ;
            }
            row_pos = row_pos + stride_v;
            y = y + 1;
        }
        Ok(())
    }

    /// Decodes the image into `out_buf`: interleaved RGB, row after row
    /// from the top, three bytes for each pixel. The buffer keeps its
    /// length, so a buffer of just the size of the image holds
    /// `width * height * 3` bytes afterwards. What the buffer holds behind
    /// the image stays as it was. On failure the content of the buffer is
    /// not specified.
    pub fn decode_image(&self, out_buf: &mut [u8]) -> (r: Result<(), JpegError>)
        requires
            self.wf(),
        ensures
            final(out_buf)@.len() == old(out_buf)@.len(),
            old(out_buf)@.len() == self@.frame.width * self@.frame.height * 3 ==> final(out_buf)@.len()
                == self@.frame.width * self@.frame.height * 3,
            r == decode_result(self@, old(out_buf)@.len() as int),
            r.is_ok() ==> is_image_decoded(
                self@,
                mcu_layout_of(self@.frame)->Some_0,
                final(out_buf)@,
            ) && is_tail_unchanged(
                old(out_buf)@,
                final(out_buf)@,
                self@.frame.width * self@.frame.height * 3,
            ),
    {
        // Buffer size check
        let len: usize = out_buf.len();
        let total: usize = match self.out_buffer_info.checked_total_buffer_size() {
            Some(v) => v,
            None => {
                return Err(JpegError::BufferTooSmall);
            },
        };
        if len < total {
            return Err(JpegError::BufferTooSmall);
        }
        let mut bsreader = JpegBitStreamReader::new(&self.rawdata);
        let mut mcu = JpegMinimumCodedUnit::new();
        match mcu.set_mode(&self.frame_header_info) {
            Ok(()) => {},
            Err(e) => {
                return Err(e);
            },
        }
        let mode = mcu.get_sampling_mode();
        let (width, height) = self.out_buffer_info.get_dimension();
        let (num_iter_x, num_iter_y) = match Self::count_mcus(mode, width, height) {
            Some(n) => n,
            None => {
                return Err(JpegError::UnsupportedFeature);
            },
        };
        bsreader.set_pos(self.img_start, 0);
        self.decode_scan(&mut mcu, &mut bsreader, out_buf, num_iter_x, num_iter_y)
    }
}

} // verus!
