//! The frame header (SOF0) and the scan header (SOS): the dimensions of
//! the image and, for each colour component, its sampling factors and the
//! tables it is coded with.

use vstd::prelude::*;
use crate::jpeg_constants::JPEG_MAX_NUM_OF_COMPONENTS;
use crate::jpeg_error::JpegError;
use crate::jpeg_raw_data::JpegReader;

verus! {

/// Number of pixels along one side of a block.
pub const JPEG_MCU_NUM_PIXELS_MIN: usize = 8;

/// The sampling factors of one component, as the byte of the frame header
/// that holds them: the horizontal factor in the high four bits, the
/// vertical factor in the low four.
#[derive(Clone, Copy)]
pub struct JpegSamplingFactor {
    val: u8,
}

/// What the frame header and the scan header say.
pub struct JpegFrameHeaderInfo {
    height: u16,
    width: u16,
    precision: u8,
    num_components: u8,
    sampling_factor: [JpegSamplingFactor; JPEG_MAX_NUM_OF_COMPONENTS],
    qt_selector: [u8; JPEG_MAX_NUM_OF_COMPONENTS],
    dc_selector: [u8; JPEG_MAX_NUM_OF_COMPONENTS],
    ac_selector: [u8; JPEG_MAX_NUM_OF_COMPONENTS],
}

/// The mathematical content of the two headers. The sequences have one
/// entry for each component slot; component id `c` of the file has slot
/// `c - 1`.
pub struct FrameHeader {
    pub width: int,
    pub height: int,
    pub precision: int,
    pub num_components: int,
    /// The sampling byte of each slot.
    pub sampling: Seq<int>,
    /// The quantization table id of each slot.
    pub qt: Seq<int>,
    /// The DC Huffman table id of each slot.
    pub td: Seq<int>,
    /// The AC Huffman table id of each slot.
    pub ta: Seq<int>,
}

impl FrameHeader {
    /// Horizontal sampling factor of slot `i`.
    pub open spec fn num_h(self, i: int) -> int {
        self.sampling[i] / 16
    }

    /// Vertical sampling factor of slot `i`.
    pub open spec fn num_v(self, i: int) -> int {
        self.sampling[i] % 16
    }

    /// Number of blocks of slot `i` in one minimum coded unit.
    pub open spec fn num_blocks(self, i: int) -> int {
        self.num_h(i) * self.num_v(i)
    }

    /// Every slot has an entry, and every table id is one of four.
    pub open spec fn valid(self) -> bool {
        &&& self.sampling.len() == 3
        &&& self.qt.len() == 3
        &&& self.td.len() == 3
        &&& self.ta.len() == 3
        &&& 0 <= self.width <= 65535
        &&& 0 <= self.height <= 65535
        &&& 0 <= self.num_components <= 255
        &&& forall|i: int| 0 <= i < 3 ==> 0 <= #[trigger] self.sampling[i] <= 255
        &&& forall|i: int| 0 <= i < 3 ==> 0 <= #[trigger] self.qt[i] <= 3
        &&& forall|i: int| 0 <= i < 3 ==> 0 <= #[trigger] self.td[i] <= 3
        &&& forall|i: int| 0 <= i < 3 ==> 0 <= #[trigger] self.ta[i] <= 3
    }
}

/// The content of the headers of a decoder before any header is read:
/// no pixels, no components, every sampling byte and table id zero.
pub open spec fn empty_frame_header() -> FrameHeader {
    FrameHeader {
        width: 0,
        height: 0,
        precision: 0,
        num_components: 0,
        sampling: Seq::new(3, |i: int| 0int),
        qt: Seq::new(3, |i: int| 0int),
        td: Seq::new(3, |i: int| 0int),
        ta: Seq::new(3, |i: int| 0int),
    }
}

/// The component entries of a frame header at `pos`, `n` of them: three
/// bytes each, the component id, the sampling factors and the quantization
/// table id. Gives the header with these entries put in their slots, and
/// the position behind them.
pub open spec fn frame_components_at(fh: FrameHeader, data: Seq<u8>, pos: int, n: int) -> Result<
    (FrameHeader, int),
    JpegError,
>
    decreases n,
{
    if n <= 0 {
        Ok((fh, pos))
    } else if pos < 0 || pos + 3 > data.len() {
        Err(JpegError::TruncatedInput)
    } else if data[pos] < 1 || data[pos] > 3 {
        Err(JpegError::LogicError)
    } else if data[pos + 1] / 16 < 1 || data[pos + 1] / 16 > 4 || data[pos + 1] % 16 < 1 || data[pos
        + 1] % 16 > 4 {
        Err(JpegError::UnsupportedFeature)
    } else if data[pos + 2] > 3 {
        Err(JpegError::LogicError)
    } else {
        frame_components_at(
            FrameHeader {
                sampling: fh.sampling.update(data[pos] - 1, data[pos + 1] as int),
                qt: fh.qt.update(data[pos] - 1, data[pos + 2] as int),
                ..fh
            },
            data,
            pos + 3,
            n - 1,
        )
    }
}

/// The frame header at `pos`: the sample precision, which has to be 8, the
/// height and the width, neither of them zero, the number of components,
/// 1 or 3, and the component entries. Gives the header with all of this put
/// in, and the position behind it.
pub open spec fn frame_header_at(fh: FrameHeader, data: Seq<u8>, pos: int) -> Result<
    (FrameHeader, int),
    JpegError,
> {
    if pos < 0 || pos + 6 > data.len() {
        Err(JpegError::TruncatedInput)
    } else {
        let height = data[pos + 1] * 256 + data[pos + 2];
        let width = data[pos + 3] * 256 + data[pos + 4];
        if data[pos] != 8 || height == 0 || width == 0 || (data[pos + 5] != 1 && data[pos + 5] != 3) {
            Err(JpegError::UnsupportedFeature)
        } else {
            frame_components_at(
                FrameHeader {
                    precision: 8,
                    height,
                    width,
                    num_components: data[pos + 5] as int,
                    ..fh
                },
                data,
                pos + 6,
                data[pos + 5] as int,
            )
        }
    }
}

/// The component entries of a scan header at `pos`, `n` of them: two
/// bytes each, the component id and a byte with the DC table id in its
/// high four bits and the AC table id in its low four.
pub open spec fn scan_components_at(fh: FrameHeader, data: Seq<u8>, pos: int, n: int) -> Result<
    (FrameHeader, int),
    JpegError,
>
    decreases n,
{
    if n <= 0 {
        Ok((fh, pos))
    } else if pos < 0 || pos + 2 > data.len() {
        Err(JpegError::TruncatedInput)
    } else if data[pos] < 1 || data[pos] > 3 || data[pos + 1] / 16 > 3 || data[pos + 1] % 16 > 3 {
        Err(JpegError::LogicError)
    } else {
        scan_components_at(
            FrameHeader {
                td: fh.td.update(data[pos] - 1, data[pos + 1] as int / 16),
                ta: fh.ta.update(data[pos] - 1, data[pos + 1] as int % 16),
                ..fh
            },
            data,
            pos + 2,
            n - 1,
        )
    }
}

/// The scan header at `pos`: the number of components, which has to be
/// that of the frame, the component entries, and three bytes that have to
/// select the whole spectrum of a sequential scan (0, 63, 0). Gives the
/// header with the table ids put in, and the position behind it, which is
/// where the entropy-coded data starts.
pub open spec fn scan_header_at(fh: FrameHeader, data: Seq<u8>, pos: int) -> Result<
    (FrameHeader, int),
    JpegError,
> {
    if pos < 0 || pos >= data.len() {
        Err(JpegError::TruncatedInput)
    } else if data[pos] != fh.num_components || (data[pos] != 1 && data[pos] != 3) {
        Err(JpegError::UnsupportedFeature)
    } else {
        match scan_components_at(fh, data, pos + 1, data[pos] as int) {
            Err(e) => Err(e),
            Ok((header, next)) => if next + 3 > data.len() {
                Err(JpegError::TruncatedInput)
            } else if data[next] != 0 || data[next + 1] != 63 || data[next + 2] != 0 {
                Err(JpegError::UnsupportedFeature)
            } else {
                Ok((header, next + 3))
            },
        }
    }
}

/// The component entries of a frame header change nothing but sampling
/// bytes and quantization table ids, and those they put in are in range:
/// both sampling factors from 1 to 4, the table id one of four.
pub proof fn lemma_frame_components_fields(fh: FrameHeader, data: Seq<u8>, pos: int, n: int)
    requires
        fh.sampling.len() == 3,
        fh.qt.len() == 3,
    ensures
        frame_components_at(fh, data, pos, n) matches Ok((header, next)) ==> {
            &&& header.width == fh.width
            &&& header.height == fh.height
            &&& header.precision == fh.precision
            &&& header.num_components == fh.num_components
            &&& header.td == fh.td
            &&& header.ta == fh.ta
            &&& header.sampling.len() == 3
            &&& header.qt.len() == 3
            &&& forall|i: int|
                0 <= i < 3 ==> #[trigger] header.sampling[i] == fh.sampling[i] || (1
                    <= header.num_h(i) <= 4 && 1 <= header.num_v(i) <= 4)
            &&& forall|i: int| 0 <= i < 3 ==> #[trigger] header.qt[i] == fh.qt[i] || 0 <= header.qt[i] <= 3
        },
    decreases n,
{
    if n > 0 && 0 <= pos && pos + 3 <= data.len() && 1 <= data[pos] <= 3 {
        let next = FrameHeader {
            sampling: fh.sampling.update(data[pos] - 1, data[pos + 1] as int),
            qt: fh.qt.update(data[pos] - 1, data[pos + 2] as int),
            ..fh
        };
        lemma_frame_components_fields(next, data, pos + 3, n - 1);
    }
}

/// A frame header that is taken in describes a baseline frame: 8 bits of
/// precision, a width and a height from 1 to 65535, and one or three
/// components.
pub proof fn lemma_frame_header_fields(fh: FrameHeader, data: Seq<u8>, pos: int)
    requires
        fh.sampling.len() == 3,
        fh.qt.len() == 3,
    ensures
        frame_header_at(fh, data, pos) matches Ok((header, next)) ==> {
            &&& header.precision == 8
            &&& 1 <= header.width <= 65535
            &&& 1 <= header.height <= 65535
            &&& header.num_components == 1 || header.num_components == 3
        },
{
    if 0 <= pos && pos + 6 <= data.len() {
        let first = FrameHeader {
            precision: 8,
            height: data[pos + 1] * 256 + data[pos + 2],
            width: data[pos + 3] * 256 + data[pos + 4],
            num_components: data[pos + 5] as int,
            ..fh
        };
        lemma_frame_components_fields(first, data, pos + 6, data[pos + 5] as int);
    }
}

impl JpegSamplingFactor {
    /// The byte that holds the two factors.
    pub closed spec fn raw(&self) -> int {
        self.val as int
    }

    /// Factors of zero.
    pub fn new() -> (s: Self)
        ensures
            s.raw() == 0,
    {
        JpegSamplingFactor { val: 0 }
    }

    /// Sets the byte that holds the two factors.
    pub fn set(&mut self, val: u8)
        ensures
            final(self).raw() == val,
    {
        self.val = val;
    }

    /// The byte that holds the two factors.
    pub fn get_raw(&self) -> (r: usize)
        ensures
            r == self.raw(),
    {
        self.val as usize
    }

    /// The horizontal factor.
    pub fn get_num_h(&self) -> (h: usize)
        ensures
            h == self.raw() / 16,
    {
        (self.val / 16) as usize
    }

    /// The vertical factor.
    pub fn get_num_v(&self) -> (v: usize)
        ensures
            v == self.raw() % 16,
    {
        (self.val % 16) as usize
    }

    /// Number of blocks of the component in one minimum coded unit.
    pub fn get_num_blocks(&self) -> (n: usize)
        ensures
            n == (self.raw() / 16) * (self.raw() % 16),
    {
        let v = self.get_num_v();
        let h = self.get_num_h();
        assert(v * h <= 225 && v * h == h * v) by (nonlinear_arith)
            requires
                0 <= v <= 15,
                0 <= h <= 15,
        ;
        v * h
    }

    /// Width in pixels of the area that the component's blocks cover.
    pub fn get_num_mcu_pixels_h(&self) -> (n: usize)
        ensures
            n == (self.raw() / 16) * 8,
    {
        self.get_num_h() * JPEG_MCU_NUM_PIXELS_MIN
    }

    /// Height in pixels of the area that the component's blocks cover.
    pub fn get_num_mcu_pixels_v(&self) -> (n: usize)
        ensures
            n == (self.raw() % 16) * 8,
    {
        self.get_num_v() * JPEG_MCU_NUM_PIXELS_MIN
    }
}

impl View for JpegFrameHeaderInfo {
    type V = FrameHeader;

    closed spec fn view(&self) -> FrameHeader {
        FrameHeader {
            width: self.width as int,
            height: self.height as int,
            precision: self.precision as int,
            num_components: self.num_components as int,
            sampling: Seq::new(3, |i: int| self.sampling_factor[i].raw()),
            qt: Seq::new(3, |i: int| self.qt_selector[i] as int),
            td: Seq::new(3, |i: int| self.dc_selector[i] as int),
            ta: Seq::new(3, |i: int| self.ac_selector[i] as int),
        }
    }
}

impl JpegFrameHeaderInfo {
    /// There are at most three components, and every table id is one of
    /// four.
    pub closed spec fn wf(&self) -> bool {
        &&& self.num_components <= 3
        &&& forall|i: int| 0 <= i < 3 ==> #[trigger] self.qt_selector[i] <= 3
        &&& forall|i: int| 0 <= i < 3 ==> #[trigger] self.dc_selector[i] <= 3
        &&& forall|i: int| 0 <= i < 3 ==> #[trigger] self.ac_selector[i] <= 3
    }

    /// The content of well-formed headers is valid, and it has at most
    /// three components.
    pub proof fn lemma_view_valid(&self)
        requires
            self.wf(),
        ensures
            self@.valid(),
            self@.num_components <= 3,
    {
    }

    /// Headers of an image without pixels or components.
    pub fn new() -> (h: Self)
        ensures
            h.wf(),
            h@ == empty_frame_header(),
    {
        let h = JpegFrameHeaderInfo {
            height: 0,
            width: 0,
            precision: 0,
            num_components: 0,
            sampling_factor: [JpegSamplingFactor::new();3],
            qt_selector: [0;3],
            dc_selector: [0;3],
            ac_selector: [0;3],
        };
        proof {
            assert(h@.sampling =~= empty_frame_header().sampling);
            assert(h@.qt =~= empty_frame_header().qt);
            assert(h@.td =~= empty_frame_header().td);
            assert(h@.ta =~= empty_frame_header().ta);
        }
        h
    }

    /// Reads a frame header at the reader. On failure the headers stay as
    /// they were.
    pub fn parse_segment(&mut self, reader: &mut JpegReader) -> (r: Result<(), JpegError>)
        requires
            old(self).wf(),
        ensures
            final(self).wf(),
            final(reader).data() == old(reader).data(),
            match frame_header_at(old(self)@, old(reader).data(), old(reader).pos()) {
                Ok((header, next)) => r == Ok::<(), JpegError>(()) && final(self)@ == header
                    && final(reader).pos() == next,
                Err(e) => r == Err::<(), JpegError>(e) && final(self)@ == old(self)@,
            },
    {
        let ghost data = reader.data();
        let ghost start = reader.pos();
        proof {
            reader.lemma_pos_bounds();
        }
        let precision = match reader.read_u8() {
            Ok(v) => v,
            Err(e) => {
                return Err(e);
            },
        };
        let height = match reader.read_u16be() {
            Ok(v) => v,
            Err(e) => {
                return Err(e);
            },
        };
        let width = match reader.read_u16be() {
            Ok(v) => v,
            Err(e) => {
                return Err(e);
            },
        };
        let num_components = match reader.read_u8() {
            Ok(v) => v,
            Err(e) => {
                return Err(e);
            },
        };
        if precision != 8 || height == 0 || width == 0 || (num_components != 1 && num_components
            != 3) {
            return Err(JpegError::UnsupportedFeature);
        }
        let mut sampling_factor = self.sampling_factor;
        let mut qt_selector = self.qt_selector;
        let ghost first = FrameHeader {
            precision: 8,
            height: height as int,
            width: width as int,
            num_components: num_components as int,
            ..self@
        };
        let ghost mut cur = first;
        let mut i: u8 = 0;
        while i < num_components
            invariant
                0 <= i <= num_components,
                data == old(reader).data(),
                start == old(reader).pos(),
                0 <= start,
                reader.data() == data,
                reader.pos() == start + 6 + 3 * i,
                reader.pos() <= data.len(),
                *self == *old(self),
                self.wf(),
                forall|k: int| 0 <= k < 3 ==> #[trigger] qt_selector[k] <= 3,
                cur == (FrameHeader {
                    sampling: Seq::new(3, |k: int| sampling_factor[k].raw()),
                    qt: Seq::new(3, |k: int| qt_selector[k] as int),
                    ..first
                }),
                frame_components_at(cur, data, start + 6 + 3 * i, num_components - i)
                    == frame_header_at(old(self)@, data, start as int),
            decreases num_components - i,
        {
            let id = match reader.read_u8() {
                Ok(v) => v,
                Err(e) => {
                    return Err(e);
                },
            };
            let factor = match reader.read_u8() {
                Ok(v) => v,
                Err(e) => {
                    return Err(e);
                },
            };
            let selector = match reader.read_u8() {
                Ok(v) => v,
                Err(e) => {
                    return Err(e);
                },
            };
            if id < 1 || id > 3 {
                return Err(JpegError::LogicError);
            }
            let h: u8 = factor / 16;
            let v: u8 = factor % 16;
            if h < 1 || h > 4 || v < 1 || v > 4 {
                return Err(JpegError::UnsupportedFeature);
            }
            if selector > 3 {
                return Err(JpegError::LogicError);
            }
            let slot: usize = (id - 1) as usize;
            sampling_factor[slot].set(factor);
            qt_selector[slot] = selector;
            proof {
                let next = FrameHeader {
                    sampling: cur.sampling.update(slot as int, factor as int),
                    qt: cur.qt.update(slot as int, selector as int),
                    ..cur
                };
                assert(next.sampling =~= Seq::new(3, |k: int| sampling_factor[k].raw()));
                assert(next.qt =~= Seq::new(3, |k: int| qt_selector[k] as int));
                cur = next;
            }
            i = i + 1;
        }
        self.precision = precision;
        self.height = height;
        self.width = width;
        self.num_components = num_components;
        self.sampling_factor = sampling_factor;
        self.qt_selector = qt_selector;
        Ok(())
    }

    /// Reads a scan header at the reader. On failure the headers stay as
    /// they were.
    pub fn parse_scan_segment(&mut self, reader: &mut JpegReader) -> (r: Result<(), JpegError>)
        requires
            old(self).wf(),
        ensures
            final(self).wf(),
            final(reader).data() == old(reader).data(),
            match scan_header_at(old(self)@, old(reader).data(), old(reader).pos()) {
                Ok((header, next)) => r == Ok::<(), JpegError>(()) && final(self)@ == header
                    && final(reader).pos() == next,
                Err(e) => r == Err::<(), JpegError>(e) && final(self)@ == old(self)@,
            },
    {
        let ghost data = reader.data();
        let ghost start = reader.pos();
        proof {
            reader.lemma_pos_bounds();
        }
        let num_components = match reader.read_u8() {
            Ok(v) => v,
            Err(e) => {
                return Err(e);
            },
        };
        if num_components != self.num_components || (num_components != 1 && num_components != 3) {
            return Err(JpegError::UnsupportedFeature);
        }
        let mut dc_selector = self.dc_selector;
        let mut ac_selector = self.ac_selector;
        let ghost mut cur = self@;
        let mut i: u8 = 0;
        while i < num_components
            invariant
                0 <= i <= num_components,
                data == old(reader).data(),
                start == old(reader).pos(),
                0 <= start,
                reader.data() == data,
                reader.pos() == start + 1 + 2 * i,
                reader.pos() <= data.len(),
                *self == *old(self),
                self.wf(),
                forall|k: int| 0 <= k < 3 ==> #[trigger] dc_selector[k] <= 3,
                forall|k: int| 0 <= k < 3 ==> #[trigger] ac_selector[k] <= 3,
                0 <= start < data.len(),
                data[start as int] == num_components,
                num_components == old(self)@.num_components,
                num_components == 1 || num_components == 3,
                cur == (FrameHeader {
                    td: Seq::new(3, |k: int| dc_selector[k] as int),
                    ta: Seq::new(3, |k: int| ac_selector[k] as int),
                    ..self@
                }),
                scan_components_at(cur, data, start + 1 + 2 * i, num_components - i)
                    == scan_components_at(old(self)@, data, start + 1, num_components as int),
            decreases num_components - i,
        {
            let id = match reader.read_u8() {
                Ok(v) => v,
                Err(e) => {
                    return Err(e);
                },
            };
            let tables = match reader.read_u8() {
                Ok(v) => v,
                Err(e) => {
                    return Err(e);
                },
            };
            let td: u8 = tables / 16;
            let ta: u8 = tables % 16;
            if id < 1 || id > 3 || td > 3 || ta > 3 {
                return Err(JpegError::LogicError);
            }
            let slot: usize = (id - 1) as usize;
            dc_selector[slot] = td;
            ac_selector[slot] = ta;
            proof {
                let next = FrameHeader {
                    td: cur.td.update(slot as int, td as int),
                    ta: cur.ta.update(slot as int, ta as int),
                    ..cur
                };
                assert(next.td =~= Seq::new(3, |k: int| dc_selector[k] as int));
                assert(next.ta =~= Seq::new(3, |k: int| ac_selector[k] as int));
                cur = next;
            }
            i = i + 1;
        }
        let spectral_start = match reader.read_u8() {
            Ok(v) => v,
            Err(e) => {
                return Err(e);
            },
        };
        let spectral_end = match reader.read_u8() {
            Ok(v) => v,
            Err(e) => {
                return Err(e);
            },
        };
        let approximation = match reader.read_u8() {
            Ok(v) => v,
            Err(e) => {
                return Err(e);
            },
        };
        if spectral_start != 0 || spectral_end != 63 || approximation != 0 {
            return Err(JpegError::UnsupportedFeature);
        }
        self.dc_selector = dc_selector;
        self.ac_selector = ac_selector;
        Ok(())
    }

    /// Number of components of the frame.
    pub fn get_num_components(&self) -> (n: usize)
        ensures
            n == self@.num_components,
    {
        self.num_components as usize
    }

    /// Sample precision in bits.
    pub fn get_precision(&self) -> (p: usize)
        ensures
            p == self@.precision,
    {
        self.precision as usize
    }

    /// Width and height of the image in pixels.
    pub fn get_dimension(&self) -> (d: (usize, usize))
        ensures
            d.0 == self@.width,
            d.1 == self@.height,
    {
        (self.width as usize, self.height as usize)
    }

    /// The sampling factors of slot `index`, the slot of a component of
    /// the frame.
    pub fn get_sampling_factor(&self, index: usize) -> (s: JpegSamplingFactor)
        requires
            self.wf(),
            index < self@.num_components,
        ensures
            s.raw() == self@.sampling[index as int],
    {
        self.sampling_factor[index]
    }

    /// The quantization table id of slot `index`, the slot of a component
    /// of the frame.
    pub fn get_table_id(&self, index: usize) -> (id: usize)
        requires
            self.wf(),
            index < self@.num_components,
        ensures
            id == self@.qt[index as int],
    {
        self.qt_selector[index] as usize
    }

    /// The DC Huffman table id of slot `index`, the slot of a component of
    /// the frame.
    pub fn get_dc_table_id(&self, index: usize) -> (id: usize)
        requires
            self.wf(),
            index < self@.num_components,
        ensures
            id == self@.td[index as int],
    {
        self.dc_selector[index] as usize
    }

    /// The AC Huffman table id of slot `index`, the slot of a component of
    /// the frame.
    pub fn get_ac_table_id(&self, index: usize) -> (id: usize)
        requires
            self.wf(),
            index < self@.num_components,
        ensures
            id == self@.ta[index as int],
    {
        self.ac_selector[index] as usize
    }
}

} // verus!
