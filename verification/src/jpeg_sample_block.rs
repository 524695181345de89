//! Sample blocks and the minimum coded unit.
//!
//! A sample block holds 64 values in natural (row-major) order. It is
//! filled with entropy-decoded coefficients that arrive in zig-zag order,
//! then dequantized, then transformed into samples. A minimum coded unit
//! (MCU) holds the blocks of all components for one rectangle of the image
//! and the DC predictor of each component.

use vstd::prelude::*;
use crate::jpeg_constants::JPEG_MAX_NUM_OF_COMPONENTS;
use crate::jpeg_constants::JPEG_MCU_MAX_NUM_BLOCKS;
use crate::jpeg_constants::JPEG_SAMPLE_BLOCK_SIZE;
use crate::jpeg_constants::lemma_zigzag_inverse;
use crate::jpeg_constants::lemma_zigzag_tables;
use crate::jpeg_constants::rev_zigzag;
use crate::jpeg_constants::rev_zigzag_index;
use crate::jpeg_constants::zigzag;
use crate::jpeg_error::JpegError;
use crate::jpeg_frame_info::FrameHeader;
use crate::jpeg_frame_info::JpegFrameHeaderInfo;
use crate::jpeg_huffman_table::decode_ac_at;
use crate::jpeg_huffman_table::decode_dc_at;
use crate::jpeg_huffman_table::HuffmanCode;
use crate::jpeg_huffman_table::HuffmanTables;
use crate::jpeg_huffman_table::JpegDhtManager;
use crate::jpeg_idct::idct_block;
use crate::jpeg_idct::JpegIdctManager;
use crate::jpeg_outbuffer_info::JpegOutBufferInfo;
use crate::jpeg_quantization_table::JpegDqtManager;
use crate::jpeg_raw_data::JpegBitStreamReader;
use crate::jpeg_sampler::block_samples;
use crate::jpeg_sampler::is_mcu_written;
use crate::jpeg_sampler::JpegSampleMode;
use crate::jpeg_sampler::JpegSampler;
use crate::jpeg_sampler::upsampling_result;

verus! {

/// One 8x8 block of coefficients or samples in natural order, and the
/// zig-zag position at which the next coefficient is put.
#[derive(Clone, Copy)]
pub struct JpegSampleBlock {
    sample: [i16; JPEG_SAMPLE_BLOCK_SIZE],
    index: usize,
}

/// Block `s` after a run of `run` zeros and then `value` have been put at
/// the zig-zag positions from `cursor` on.
pub open spec fn coefficients_absorbed(s: Seq<i16>, cursor: int, run: int, value: i16) -> Seq<i16> {
    Seq::new(
        64,
        |k: int|
            if cursor <= zigzag(k) < cursor + run {
                0i16
            } else if zigzag(k) == cursor + run {
                value
            } else {
                s[k]
            },
    )
}

/// Block `s` with zeros at every zig-zag position from `cursor` on.
pub open spec fn coefficients_ended(s: Seq<i16>, cursor: int) -> Seq<i16> {
    Seq::new(
        64,
        |k: int|
            if zigzag(k) >= cursor {
                0i16
            } else {
                s[k]
            },
    )
}

/// Whether every product of a coefficient and its quantization value fits
/// in 16 signed bits.
pub open spec fn dequantization_fits(s: Seq<i16>, q: Seq<u16>) -> bool {
    forall|k: int| 0 <= k < 64 ==> -32768 <= #[trigger] (s[k] * q[k]) <= 32767
}

/// The block with each coefficient multiplied by the quantization value
/// of its position.
pub open spec fn dequantized(s: Seq<i16>, q: Seq<u16>) -> Seq<i16> {
    Seq::new(64, |k: int| (s[k] * q[k]) as i16)
}

/// Dequantization is elementwise: where every product fits, each
/// coefficient of the result is the product of the coefficient and the
/// quantization value at its position.
pub proof fn lemma_dequantized_elementwise(s: Seq<i16>, q: Seq<u16>, k: int)
    requires
        dequantization_fits(s, q),
        0 <= k < 64,
    ensures
        dequantized(s, q)[k] as int == s[k] as int * q[k] as int,
{
}

impl JpegSampleBlock {
    /// The 64 values in natural order.
    pub closed spec fn samples(&self) -> Seq<i16> {
        self.sample@
    }

    /// The zig-zag position of the next coefficient.
    pub closed spec fn cursor(&self) -> int {
        self.index as int
    }

    /// The cursor is a zig-zag position or stands at the end.
    pub open spec fn wf(&self) -> bool {
        0 <= self.cursor() <= 64
    }

    /// A block of zeros with the cursor at the start.
    pub fn new() -> (b: Self)
        ensures
            b.wf(),
            b.cursor() == 0,
            b.samples() == Seq::new(64, |k: int| 0i16),
    {
        let b = JpegSampleBlock { sample: [0;64], index: 0 };
        b
    }

    /// A block that holds `sample` in natural order, with the cursor at
    /// the end.
    pub fn from_samples(sample: [i16; 64]) -> (b: Self)
        ensures
            b.wf(),
            b.cursor() == 64,
            b.samples() == sample@,
    {
        JpegSampleBlock { sample, index: JPEG_SAMPLE_BLOCK_SIZE }
    }

    /// Puts the cursor back to the start.
    pub fn reset_index(&mut self)
        ensures
            final(self).cursor() == 0,
            final(self).samples() == old(self).samples(),
    {
        self.index = 0;
    }

    /// The natural index of the cursor's zig-zag position; the cursor
    /// moves on by one.
    pub fn get_zigzag_index(&mut self) -> (zi: usize)
        requires
            0 <= old(self).cursor() < 64,
        ensures
            zi == rev_zigzag(old(self).cursor()),
            zi < 64,
            final(self).cursor() == old(self).cursor() + 1,
            final(self).samples() == old(self).samples(),
    {
        let zi = rev_zigzag_index(self.index);
        self.index = self.index + 1;
        zi
    }

    /// Puts `num_zero_run` zeros and then `coef` at the zig-zag positions
    /// from the cursor on and moves the cursor behind them. The result
    /// tells whether the block is full. Where the values do not fit in the
    /// block, the block stays as it was.
    pub fn add_coefficients(&mut self, coef: i16, num_zero_run: usize) -> (r: Result<
        bool,
        JpegError,
    >)
        requires
            old(self).wf(),
        ensures
            final(self).wf(),
            if old(self).cursor() + num_zero_run < 64 {
                &&& r == Ok::<bool, JpegError>(old(self).cursor() + num_zero_run == 63)
                &&& final(self).cursor() == old(self).cursor() + num_zero_run + 1
                &&& final(self).samples() == coefficients_absorbed(
                    old(self).samples(),
                    old(self).cursor(),
                    num_zero_run as int,
                    coef,
                )
            } else {
                &&& r == Err::<bool, JpegError>(JpegError::LogicError)
                &&& final(self).cursor() == old(self).cursor()
                &&& final(self).samples() == old(self).samples()
            },
    {
        if num_zero_run >= JPEG_SAMPLE_BLOCK_SIZE || self.index + num_zero_run
            >= JPEG_SAMPLE_BLOCK_SIZE {
            return Err(JpegError::LogicError);
        }
        let ghost before = self.samples();
        let ghost start = self.cursor();
        let mut count_zero: usize = num_zero_run;
        while count_zero > 0
            invariant
                0 <= start,
                start + num_zero_run < 64,
                0 <= count_zero <= num_zero_run,
                self.cursor() == start + (num_zero_run - count_zero),
                forall|k: int|
                    0 <= k < 64 ==> #[trigger] self.samples()[k] == if start <= zigzag(k)
                        < self.cursor() {
                        0i16
                    } else {
                        before[k]
                    },
            decreases count_zero,
        {
            proof {
                lemma_zigzag_inverse();
            }
            let zi = self.get_zigzag_index();
            self.sample[zi] = 0;
            count_zero = count_zero - 1;
        }
        proof {
            lemma_zigzag_inverse();
        }
        let zi = self.get_zigzag_index();
        self.sample[zi] = coef;
        Ok(self.index == JPEG_SAMPLE_BLOCK_SIZE)
    }

    /// Ends the block: puts zeros at every zig-zag position from the
    /// cursor on and moves the cursor to the end.
    pub fn end_coefficients(&mut self)
        requires
            old(self).wf(),
        ensures
            final(self).wf(),
            final(self).cursor() == 64,
            final(self).samples() == coefficients_ended(old(self).samples(), old(self).cursor()),
    {
        let ghost before = self.samples();
        let ghost start = self.cursor();
        while self.index < JPEG_SAMPLE_BLOCK_SIZE
            invariant
                0 <= start <= self.cursor() <= 64,
                forall|k: int|
                    0 <= k < 64 ==> #[trigger] self.samples()[k] == if start <= zigzag(k)
                        < self.cursor() {
                        0i16
                    } else {
                        before[k]
                    },
            decreases 64 - self.cursor(),
        {
            proof {
                lemma_zigzag_inverse();
            }
            let zi = self.get_zigzag_index();
            self.sample[zi] = 0;
        }
        proof {
            lemma_zigzag_inverse();
        }
    }

    /// Dequantizes the block: multiplies each coefficient by the value of
    /// `scale` at its position and moves the cursor to the end. Where a
    /// product does not fit in 16 signed bits, the block stays as it was.
    pub fn scale_coefficients(&mut self, scale: &[u16]) -> (r: Result<(), JpegError>)
        requires
            scale@.len() == 64,
        ensures
            if dequantization_fits(old(self).samples(), scale@) {
                &&& r == Ok::<(), JpegError>(())
                &&& final(self).samples() == dequantized(old(self).samples(), scale@)
                &&& final(self).cursor() == 64
            } else {
                &&& r == Err::<(), JpegError>(JpegError::LogicError)
                &&& final(self).samples() == old(self).samples()
                &&& final(self).cursor() == old(self).cursor()
            },
    {
        let mut scaled: [i16; 64] = [0;64];
        let mut i: usize = 0;
        while i < JPEG_SAMPLE_BLOCK_SIZE
            invariant
                0 <= i <= 64,
                scale@.len() == 64,
                *self == *old(self),
                forall|k: int| 0 <= k < i ==> -32768 <= #[trigger] (self.samples()[k] * scale@[k]) <= 32767,
                forall|k: int| 0 <= k < i ==> #[trigger] scaled@[k] == (self.samples()[k] * scale@[k]) as i16,
            decreases 64 - i,
        {
            let a: i32 = self.sample[i] as i32;
            let q: i32 = scale[i] as i32;
            assert(-0x8000_0000 <= a * q < 0x8000_0000) by (nonlinear_arith)
                requires
                    -32768 <= a <= 32767,
                    0 <= q <= 65535,
            ;
            let product: i32 = a * q;
            if product < -32768 || product > 32767 {
                return Err(JpegError::LogicError);
            }
            scaled[i] = product as i16;
            i = i + 1;
        }
        self.sample = scaled;
        self.index = JPEG_SAMPLE_BLOCK_SIZE;
        Ok(())
    }

    /// Transforms the coefficients of the block into its samples.
    pub fn transform(&mut self)
        ensures
            final(self).samples() == idct_block(old(self).samples()),
            final(self).cursor() == old(self).cursor(),
    {
        let mut tm = JpegIdctManager::new();
        tm.idct(&mut self.sample);
    }

    /// Reads the coefficients of the block at the reader: the DC
    /// difference, which is added to `predictor`, and then the AC
    /// coefficients. Whatever the block held is replaced. The result is the
    /// DC coefficient, which is the next predictor.
    pub fn fill_coefficients(
        &mut self,
        dht: &JpegDhtManager,
        dc_table_id: usize,
        ac_table_id: usize,
        predictor: i16,
        bsreader: &mut JpegBitStreamReader,
    ) -> (r: Result<i16, JpegError>)
        requires
            dht.wf(),
            dc_table_id < 4,
            ac_table_id < 4,
            old(bsreader).wf(),
        ensures
            final(self).wf(),
            final(bsreader).wf(),
            final(bsreader).data() == old(bsreader).data(),
            match block_coefficients_at(
                dht@.dc[dc_table_id as int],
                dht@.ac[ac_table_id as int],
                old(bsreader).data(),
                old(bsreader).pos(),
                old(bsreader).bit(),
                predictor,
            ) {
                Ok((coeffs, next, cur)) => {
                    &&& r == Ok::<i16, JpegError>(next)
                    &&& final(self).samples() == coeffs
                    &&& final(self).cursor() == 64
                    &&& final(bsreader).pos() == cur.0
                    &&& final(bsreader).bit() == cur.1
                },
                Err(e) => r == Err::<i16, JpegError>(e),
            },
    {
        let ghost data = bsreader.data();
        let ghost ac_code = dht@.ac[ac_table_id as int];
        let dc_decoded = match dht.decode_dc(dc_table_id, bsreader) {
            Ok(v) => v,
            Err(e) => {
                self.index = 0;
                return Err(e);
            },
        };
        self.index = 0;
        let sum: i32 = predictor as i32 + dc_decoded as i32;
        if sum < -32768 || sum > 32767 {
            return Err(JpegError::LogicError);
        }
        let coef: i16 = sum as i16;
        match self.add_coefficients(coef, 0) {
            Ok(_) => {},
            Err(e) => {
                return Err(e);
            },
        }
        let ghost target = ac_coefficients_at(
            ac_code,
            data,
            bsreader.pos(),
            bsreader.bit(),
            1,
            self.samples(),
        );
        proof {
            lemma_zigzag_inverse();
            lemma_ac_coefficients_overwrite(
                ac_code,
                data,
                bsreader.pos(),
                bsreader.bit(),
                1,
                self.samples(),
                coefficients_absorbed(zero_block(), 0, 0, coef),
            );
        }
        while !self.is_completed()
            invariant
                self.wf(),
                dht.wf(),
                bsreader.wf(),
                bsreader.data() == data,
                data == old(bsreader).data(),
                ac_table_id < 4,
                ac_code == dht@.ac[ac_table_id as int],
                1 <= self.cursor() <= 64,
                target is Ok ==> block_coefficients_at(
                    dht@.dc[dc_table_id as int],
                    dht@.ac[ac_table_id as int],
                    old(bsreader).data(),
                    old(bsreader).pos(),
                    old(bsreader).bit(),
                    predictor,
                ) == Ok::<(Seq<i16>, i16, (int, int)), JpegError>(
                    (target->Ok_0.0, coef, target->Ok_0.1),
                ),
                target matches Err(e) ==> block_coefficients_at(
                    dht@.dc[dc_table_id as int],
                    dht@.ac[ac_table_id as int],
                    old(bsreader).data(),
                    old(bsreader).pos(),
                    old(bsreader).bit(),
                    predictor,
                ) == Err::<(Seq<i16>, i16, (int, int)), JpegError>(e),
                ac_coefficients_at(
                    ac_code,
                    data,
                    bsreader.pos(),
                    bsreader.bit(),
                    self.cursor(),
                    self.samples(),
                ) == target,
            decreases 64 - self.cursor(),
        {
            match dht.decode_ac(ac_table_id, bsreader) {
                Err(e) => {
                    return Err(e);
                },
                Ok(None) => {
                    self.end_coefficients();
                },
                Ok(Some((value, run))) => {
                    match self.add_coefficients(value, run) {
                        Ok(_) => {},
                        Err(e) => {
                            return Err(e);
                        },
                    }
                },
            }
        }
        Ok(coef)
    }

    /// Whether the cursor stands at the end of the block.
    pub fn is_completed(&self) -> (b: bool)
        ensures
            b == (self.cursor() == 64),
    {
        self.index == JPEG_SAMPLE_BLOCK_SIZE
    }

    /// An iterator over the 64 values in natural order.
    pub fn iter(&self) -> (it: core::slice::Iter<'_, i16>)
        ensures
            vstd::std_specs::slice::into_iter_elts(it) == self.samples(),
    {
        let it = self.sample.as_slice().iter();
        it
    }

    /// The value at natural index `i`.
    pub fn get_sample(&self, i: usize) -> (v: i16)
        requires
            i < 64,
        ensures
            v == self.samples()[i as int],
    {
        self.sample[i]
    }
}

/// The blocks of one rectangle of the image, the component of each block,
/// the tables of each component, and the DC predictor of each component.
pub struct JpegMinimumCodedUnit {
    blocks: [JpegSampleBlock; JPEG_MCU_MAX_NUM_BLOCKS],
    component_ids: [u8; JPEG_MCU_MAX_NUM_BLOCKS],
    dc_ids: [u8; JPEG_MAX_NUM_OF_COMPONENTS],
    ac_ids: [u8; JPEG_MAX_NUM_OF_COMPONENTS],
    qt_ids: [u8; JPEG_MAX_NUM_OF_COMPONENTS],
    last_dc: [i16; JPEG_MAX_NUM_OF_COMPONENTS],
    sampler: JpegSampler,
    index: usize,
    num_blocks_in_mcu: usize,
}

/// How an MCU is laid out: the sampling mode, which fixes the blocks and
/// their components, and the tables of each of the three component slots.
pub struct McuLayout {
    pub mode: JpegSampleMode,
    /// The DC Huffman table id of each component slot.
    pub td: Seq<int>,
    /// The AC Huffman table id of each component slot.
    pub ta: Seq<int>,
    /// The quantization table id of each component slot.
    pub qt: Seq<int>,
}

/// Where a scan stands between two blocks: the cursor in the
/// entropy-coded data and the DC predictor of each component slot.
pub struct ScanState {
    pub pos: int,
    pub bit: int,
    pub predictors: Seq<i16>,
}

impl McuLayout {
    /// Number of blocks of the MCU.
    pub open spec fn num_blocks(self) -> int {
        self.mode.num_blocks()
    }

    /// The component slot of block `k`: the luma blocks come first, then
    /// one block of each chroma component.
    pub open spec fn component_of(self, k: int) -> int {
        if self.mode == JpegSampleMode::JpegSampleModeNone || k < self.num_blocks() - 2 {
            0
        } else if k == self.num_blocks() - 2 {
            1
        } else {
            2
        }
    }

    /// Every component slot has its table ids, each one of four.
    pub open spec fn valid(self) -> bool {
        &&& self.td.len() == 3
        &&& self.ta.len() == 3
        &&& self.qt.len() == 3
        &&& forall|c: int| 0 <= c < 3 ==> 0 <= #[trigger] self.td[c] <= 3
        &&& forall|c: int| 0 <= c < 3 ==> 0 <= #[trigger] self.ta[c] <= 3
        &&& forall|c: int| 0 <= c < 3 ==> 0 <= #[trigger] self.qt[c] <= 3
    }
}

/// The sampling mode of a frame, if it is one of the supported ones. A
/// single component has to have the factors 1x1. Of three components the
/// two chroma components have to have the factors 1x1, and the luma
/// component 1x1, 2x1, 1x2 or 2x2.
pub open spec fn sample_mode_of(fh: FrameHeader) -> Option<JpegSampleMode> {
    if fh.num_components == 1 {
        if fh.sampling[0] == 0x11 {
            Some(JpegSampleMode::JpegSampleModeNone)
        } else {
            None
        }
    } else if fh.num_components == 3 && fh.sampling[1] == 0x11 && fh.sampling[2] == 0x11 {
        if fh.sampling[0] == 0x11 {
            Some(JpegSampleMode::JpegSampleMode444)
        } else if fh.sampling[0] == 0x21 {
            Some(JpegSampleMode::JpegSampleMode422)
        } else if fh.sampling[0] == 0x12 {
            Some(JpegSampleMode::JpegSampleMode440)
        } else if fh.sampling[0] == 0x22 {
            Some(JpegSampleMode::JpegSampleMode420)
        } else {
            None
        }
    } else {
        None
    }
}

/// The layout of an MCU that is new: a single component and every table
/// id zero.
pub open spec fn fresh_layout() -> McuLayout {
    McuLayout {
        mode: JpegSampleMode::JpegSampleModeNone,
        td: Seq::new(3, |c: int| 0int),
        ta: Seq::new(3, |c: int| 0int),
        qt: Seq::new(3, |c: int| 0int),
    }
}

/// The layout of an MCU with the layout `before` after it is laid out for
/// a frame, if the sampling mode of the frame is supported: the mode of
/// the frame and, for the slots of its components, the table ids of the
/// headers. The table ids of the other slots stay.
pub open spec fn mcu_layout_from(fh: FrameHeader, before: McuLayout) -> Option<McuLayout> {
    match sample_mode_of(fh) {
        Some(mode) => Some(
            McuLayout {
                mode,
                td: Seq::new(
                    3,
                    |c: int|
                        if c < fh.num_components {
                            fh.td[c]
                        } else {
                            before.td[c]
                        },
                ),
                ta: Seq::new(
                    3,
                    |c: int|
                        if c < fh.num_components {
                            fh.ta[c]
                        } else {
                            before.ta[c]
                        },
                ),
                qt: Seq::new(
                    3,
                    |c: int|
                        if c < fh.num_components {
                            fh.qt[c]
                        } else {
                            before.qt[c]
                        },
                ),
            },
        ),
        None => None,
    }
}

/// The layout of the MCUs of a frame in a new MCU, if the sampling mode of
/// the frame is supported.
pub open spec fn mcu_layout_of(fh: FrameHeader) -> Option<McuLayout> {
    mcu_layout_from(fh, fresh_layout())
}

/// Number of blocks that the first `n` component slots of a frame have in
/// one MCU: the products of their sampling factors, added up.
pub open spec fn frame_blocks(fh: FrameHeader, n: int) -> int
    decreases n,
{
    if n <= 0 {
        0
    } else {
        frame_blocks(fh, n - 1) + fh.num_blocks(n - 1)
    }
}

/// The MCU of a supported frame has one block for each product of
/// sampling factors, and the blocks follow the components in order: the
/// blocks of a component stand behind the blocks of the components before
/// it.
pub proof fn lemma_layout_follows_components(fh: FrameHeader, before: McuLayout, k: int)
    requires
        mcu_layout_from(fh, before) is Some,
        0 <= k < mcu_layout_from(fh, before)->Some_0.num_blocks(),
    ensures
        ({
            let layout = mcu_layout_from(fh, before)->Some_0;
            let c = layout.component_of(k);
            &&& layout.num_blocks() == frame_blocks(fh, fh.num_components)
            &&& layout.num_blocks() <= 10
            &&& 0 <= c < fh.num_components
            &&& frame_blocks(fh, c) <= k < frame_blocks(fh, c + 1)
        }),
{
    reveal_with_fuel(frame_blocks, 4);
    lemma_slot_blocks(fh, 0);
    if fh.num_components == 3 {
        lemma_slot_blocks(fh, 1);
        lemma_slot_blocks(fh, 2);
    }
}

/// The number of blocks of a slot with factors of 1 or 2.
proof fn lemma_slot_blocks(fh: FrameHeader, i: int)
    ensures
        fh.sampling[i] == 0x11 ==> fh.num_blocks(i) == 1,
        fh.sampling[i] == 0x21 ==> fh.num_blocks(i) == 2,
        fh.sampling[i] == 0x12 ==> fh.num_blocks(i) == 2,
        fh.sampling[i] == 0x22 ==> fh.num_blocks(i) == 4,
{
    let h = fh.num_h(i);
    let v = fh.num_v(i);
    assert(h == 1 && v == 1 ==> h * v == 1) by (nonlinear_arith);
    assert(h == 2 && v == 1 ==> h * v == 2) by (nonlinear_arith);
    assert(h == 1 && v == 2 ==> h * v == 2) by (nonlinear_arith);
    assert(h == 2 && v == 2 ==> h * v == 4) by (nonlinear_arith);
}

/// A block of zeros.
pub open spec fn zero_block() -> Seq<i16> {
    Seq::new(64, |k: int| 0i16)
}

/// The AC coefficients read at (`pos`, `bit`) into block `s` from zig-zag
/// position `cursor` on, and the cursor behind them. Each symbol gives a
/// run of zeros and a value; the symbol that ends the block gives zeros up
/// to the end. A run that leaves no room for its value is an error.
pub open spec fn ac_coefficients_at(
    code: HuffmanCode,
    data: Seq<u8>,
    pos: int,
    bit: int,
    cursor: int,
    s: Seq<i16>,
) -> Result<(Seq<i16>, (int, int)), JpegError>
    decreases 64 - cursor,
{
    if cursor >= 64 {
        Ok((s, (pos, bit)))
    } else {
        match decode_ac_at(code, data, pos, bit) {
            Err(e) => Err(e),
            Ok((None, c)) => Ok((coefficients_ended(s, cursor), c)),
            Ok((Some((v, run)), c)) => if run < 0 || cursor + run >= 64 {
                Err(JpegError::LogicError)
            } else {
                ac_coefficients_at(
                    code,
                    data,
                    c.0,
                    c.1,
                    cursor + run + 1,
                    coefficients_absorbed(s, cursor, run, v as i16),
                )
            },
        }
    }
}

/// The coefficients of one block read at (`pos`, `bit`), in natural order,
/// the new DC predictor, and the cursor behind the block. The DC
/// coefficient is the predictor plus the difference that is read first; it
/// has to fit in 16 signed bits. The AC coefficients follow.
pub open spec fn block_coefficients_at(
    dc: HuffmanCode,
    ac: HuffmanCode,
    data: Seq<u8>,
    pos: int,
    bit: int,
    predictor: i16,
) -> Result<(Seq<i16>, i16, (int, int)), JpegError> {
    match decode_dc_at(dc, data, pos, bit) {
        Err(e) => Err(e),
        Ok((diff, c)) => if predictor + diff < -32768 || predictor + diff > 32767 {
            Err(JpegError::LogicError)
        } else {
            match ac_coefficients_at(
                ac,
                data,
                c.0,
                c.1,
                1,
                coefficients_absorbed(zero_block(), 0, 0, (predictor + diff) as i16),
            ) {
                Err(e) => Err(e),
                Ok((coeffs, c2)) => Ok((coeffs, (predictor + diff) as i16, c2)),
            }
        },
    }
}

/// The coefficients of the blocks of one MCU from block `k` on, read at
/// the cursor of `st` and put behind the blocks `done` that were read
/// before, and the state of the scan behind the MCU. Each block is read
/// with the tables and the predictor of its component.
pub open spec fn mcu_coefficients_at(
    layout: McuLayout,
    tables: HuffmanTables,
    data: Seq<u8>,
    st: ScanState,
    k: int,
    done: Seq<Seq<i16>>,
) -> Result<(Seq<Seq<i16>>, ScanState), JpegError>
    decreases layout.num_blocks() - k,
{
    if k < 0 || k >= layout.num_blocks() {
        Ok((done, st))
    } else {
        let c = layout.component_of(k);
        match block_coefficients_at(
            tables.dc[layout.td[c]],
            tables.ac[layout.ta[c]],
            data,
            st.pos,
            st.bit,
            st.predictors[c],
        ) {
            Err(e) => Err(e),
            Ok((coeffs, predictor, cur)) => mcu_coefficients_at(
                layout,
                tables,
                data,
                ScanState { pos: cur.0, bit: cur.1, predictors: st.predictors.update(c, predictor) },
                k + 1,
                done.push(coeffs),
            ),
        }
    }
}

/// Whether every block of the MCU can be dequantized with the table of its
/// component.
pub open spec fn mcu_dequantization_fits(
    layout: McuLayout,
    qts: Seq<Seq<u16>>,
    blocks: Seq<Seq<i16>>,
) -> bool {
    forall|k: int|
        0 <= k < layout.num_blocks() ==> dequantization_fits(
            #[trigger] blocks[k],
            qts[layout.qt[layout.component_of(k)]],
        )
}

/// The blocks of the MCU, each dequantized with the table of its
/// component.
pub open spec fn mcu_dequantized(layout: McuLayout, qts: Seq<Seq<u16>>, blocks: Seq<Seq<i16>>) -> Seq<
    Seq<i16>,
> {
    Seq::new(
        layout.num_blocks() as nat,
        |k: int| dequantized(blocks[k], qts[layout.qt[layout.component_of(k)]]),
    )
}

/// The blocks of the MCU, each transformed into samples.
pub open spec fn mcu_transformed(layout: McuLayout, blocks: Seq<Seq<i16>>) -> Seq<Seq<i16>> {
    Seq::new(layout.num_blocks() as nat, |k: int| idct_block(blocks[k]))
}

/// What is read from zig-zag position `cursor` on does not depend on what
/// the block held at that position or behind it.
pub proof fn lemma_ac_coefficients_overwrite(
    code: HuffmanCode,
    data: Seq<u8>,
    pos: int,
    bit: int,
    cursor: int,
    s1: Seq<i16>,
    s2: Seq<i16>,
)
    requires
        0 <= cursor,
        s1.len() == 64,
        s2.len() == 64,
        forall|k: int| 0 <= k < 64 && zigzag(k) < cursor ==> s1[k] == s2[k],
        cursor < 64 || s1 == s2,
    ensures
        ac_coefficients_at(code, data, pos, bit, cursor, s1) == ac_coefficients_at(
            code,
            data,
            pos,
            bit,
            cursor,
            s2,
        ),
    decreases 64 - cursor,
{
    if cursor < 64 {
        match decode_ac_at(code, data, pos, bit) {
            Err(e) => {},
            Ok((None, c)) => {
                assert(coefficients_ended(s1, cursor) =~= coefficients_ended(s2, cursor));
            },
            Ok((Some((v, run)), c)) => {
                if !(run < 0 || cursor + run >= 64) {
                    let t1 = coefficients_absorbed(s1, cursor, run, v as i16);
                    let t2 = coefficients_absorbed(s2, cursor, run, v as i16);
                    if cursor + run + 1 >= 64 {
                        lemma_zigzag_inverse();
                        assert(t1 =~= t2);
                    }
                    lemma_ac_coefficients_overwrite(code, data, c.0, c.1, cursor + run + 1, t1, t2);
                }
            },
        }
    }
}

/// What lies in front of zig-zag position `cursor` stays when the
/// coefficients from `cursor` on are read, and the block that is read has
/// 64 values.
pub proof fn lemma_ac_coefficients_keep(
    code: HuffmanCode,
    data: Seq<u8>,
    pos: int,
    bit: int,
    cursor: int,
    s: Seq<i16>,
)
    requires
        0 <= cursor,
        s.len() == 64,
    ensures
        ac_coefficients_at(code, data, pos, bit, cursor, s) matches Ok((coeffs, c)) ==> coeffs.len()
            == 64 && forall|k: int| 0 <= k < 64 && zigzag(k) < cursor ==> coeffs[k] == s[k],
    decreases 64 - cursor,
{
    if cursor < 64 {
        match decode_ac_at(code, data, pos, bit) {
            Err(e) => {},
            Ok((None, c)) => {},
            Ok((Some((v, run)), c)) => {
                if !(run < 0 || cursor + run >= 64) {
                    lemma_ac_coefficients_keep(
                        code,
                        data,
                        c.0,
                        c.1,
                        cursor + run + 1,
                        coefficients_absorbed(s, cursor, run, v as i16),
                    );
                }
            },
        }
    }
}

/// The DC difference that is read first for the block at (`pos`, `bit`),
/// or zero where none can be read.
pub open spec fn block_dc_difference(dc: HuffmanCode, data: Seq<u8>, pos: int, bit: int) -> int {
    match decode_dc_at(dc, data, pos, bit) {
        Ok((diff, c)) => diff,
        Err(e) => 0,
    }
}

/// The DC predictor behind a block is the predictor in front of it plus
/// the DC difference of the block, and it is the DC coefficient of the
/// block: the value at natural index 0.
pub proof fn lemma_block_predictor(
    dc: HuffmanCode,
    ac: HuffmanCode,
    data: Seq<u8>,
    pos: int,
    bit: int,
    predictor: i16,
)
    ensures
        block_coefficients_at(dc, ac, data, pos, bit, predictor) matches Ok((coeffs, next, c)) ==> {
            &&& next == predictor + block_dc_difference(dc, data, pos, bit)
            &&& coeffs.len() == 64
            &&& coeffs[0] == next
        },
{
    match decode_dc_at(dc, data, pos, bit) {
        Err(e) => {},
        Ok((diff, c)) => {
            if !(predictor + diff < -32768 || predictor + diff > 32767) {
                let first = coefficients_absorbed(zero_block(), 0, 0, (predictor + diff) as i16);
                lemma_ac_coefficients_keep(ac, data, c.0, c.1, 1, first);
                lemma_zigzag_tables(0);
            }
        },
    }
}

/// The sum of the DC differences that are read for component slot `c` in
/// the blocks of one MCU from block `k` on, read at the cursor of `st`.
pub open spec fn mcu_dc_sum(
    layout: McuLayout,
    tables: HuffmanTables,
    data: Seq<u8>,
    st: ScanState,
    k: int,
    c: int,
) -> int
    decreases layout.num_blocks() - k,
{
    if k < 0 || k >= layout.num_blocks() {
        0
    } else {
        let slot = layout.component_of(k);
        match block_coefficients_at(
            tables.dc[layout.td[slot]],
            tables.ac[layout.ta[slot]],
            data,
            st.pos,
            st.bit,
            st.predictors[slot],
        ) {
            Err(e) => 0,
            Ok((coeffs, predictor, cur)) => (if slot == c {
                block_dc_difference(tables.dc[layout.td[slot]], data, st.pos, st.bit)
            } else {
                0
            }) + mcu_dc_sum(
                layout,
                tables,
                data,
                ScanState { pos: cur.0, bit: cur.1, predictors: st.predictors.update(slot, predictor) },
                k + 1,
                c,
            ),
        }
    }
}

/// The DC predictor of a component behind an MCU is its predictor in
/// front of the MCU plus the DC differences that were read for the
/// component in the MCU. The MCU has as many blocks as its layout says,
/// each of 64 values.
pub proof fn lemma_mcu_predictors(
    layout: McuLayout,
    tables: HuffmanTables,
    data: Seq<u8>,
    st: ScanState,
    k: int,
    done: Seq<Seq<i16>>,
    c: int,
)
    requires
        0 <= k <= layout.num_blocks(),
        done.len() == k,
        st.predictors.len() == 3,
        0 <= c < 3,
    ensures
        mcu_coefficients_at(layout, tables, data, st, k, done) matches Ok((blocks, next)) ==> {
            &&& next.predictors.len() == 3
            &&& next.predictors[c] == st.predictors[c] + mcu_dc_sum(layout, tables, data, st, k, c)
            &&& blocks.len() == layout.num_blocks()
            &&& forall|i: int| 0 <= i < k ==> blocks[i] == done[i]
        },
    decreases layout.num_blocks() - k,
{
    if k < layout.num_blocks() {
        let slot = layout.component_of(k);
        let dc = tables.dc[layout.td[slot]];
        let ac = tables.ac[layout.ta[slot]];
        match block_coefficients_at(dc, ac, data, st.pos, st.bit, st.predictors[slot]) {
            Err(e) => {},
            Ok((coeffs, predictor, cur)) => {
                let next = ScanState {
                    pos: cur.0,
                    bit: cur.1,
                    predictors: st.predictors.update(slot, predictor),
                };
                lemma_mcu_predictors(layout, tables, data, next, k + 1, done.push(coeffs), c);
            },
        }
    }
}

impl JpegMinimumCodedUnit {
    /// The layout of the MCU.
    pub closed spec fn layout(&self) -> McuLayout {
        McuLayout {
            mode: self.sampler.mode(),
            td: Seq::new(3, |c: int| self.dc_ids[c] as int),
            ta: Seq::new(3, |c: int| self.ac_ids[c] as int),
            qt: Seq::new(3, |c: int| self.qt_ids[c] as int),
        }
    }

    /// The values of the blocks of the MCU.
    pub closed spec fn blocks(&self) -> Seq<Seq<i16>> {
        Seq::new(self.num_blocks_in_mcu as nat, |k: int| self.blocks[k].samples())
    }

    /// The cursor of each block of the MCU: the zig-zag position of its
    /// next coefficient, 64 for a block that is complete.
    pub closed spec fn cursors(&self) -> Seq<int> {
        Seq::new(self.num_blocks_in_mcu as nat, |k: int| self.blocks[k].cursor())
    }

    /// The index of the block that is worked on next; the number of blocks
    /// when all are done.
    pub closed spec fn block_index(&self) -> int {
        self.index as int
    }

    /// The DC predictor of each component slot.
    pub closed spec fn predictors(&self) -> Seq<i16> {
        self.last_dc@
    }

    /// The blocks and their components are those of the layout, and every
    /// table id is one of four.
    pub closed spec fn wf(&self) -> bool {
        &&& self.num_blocks_in_mcu == self.layout().num_blocks()
        &&& forall|k: int|
            0 <= k < self.num_blocks_in_mcu ==> #[trigger] self.component_ids[k] as int
                == self.layout().component_of(k)
        &&& forall|k: int| 0 <= k < 10 ==> (#[trigger] self.blocks[k]).wf()
        &&& forall|c: int| 0 <= c < 3 ==> #[trigger] self.dc_ids[c] <= 3
        &&& forall|c: int| 0 <= c < 3 ==> #[trigger] self.ac_ids[c] <= 3
        &&& forall|c: int| 0 <= c < 3 ==> #[trigger] self.qt_ids[c] <= 3
    }

    /// The layout of a well-formed MCU is valid. The MCU holds the blocks
    /// of its layout, each of 64 values and with a cursor of at most 64,
    /// and three predictors.
    pub proof fn lemma_wf(&self)
        requires
            self.wf(),
        ensures
            self.layout().valid(),
            self.blocks().len() == self.layout().num_blocks(),
            self.cursors().len() == self.layout().num_blocks(),
            forall|k: int| 0 <= k < self.blocks().len() ==> (#[trigger] self.blocks()[k]).len() == 64,
            forall|k: int| 0 <= k < self.cursors().len() ==> 0 <= #[trigger] self.cursors()[k] <= 64,
            self.predictors().len() == 3,
    {
        assert forall|c: int| 0 <= c < 3 implies 0 <= #[trigger] self.layout().td[c] <= 3 by {
            assert(self.dc_ids[c] <= 3);
        }
        assert forall|c: int| 0 <= c < 3 implies 0 <= #[trigger] self.layout().ta[c] <= 3 by {
            assert(self.ac_ids[c] <= 3);
        }
        assert forall|c: int| 0 <= c < 3 implies 0 <= #[trigger] self.layout().qt[c] <= 3 by {
            assert(self.qt_ids[c] <= 3);
        }
        assert forall|k: int| 0 <= k < self.cursors().len() implies 0 <= #[trigger] self.cursors()[k]
            <= 64 by {
            assert(self.blocks[k].wf());
        }
    }

    /// An MCU of a single component: one block of zeros with its cursor at
    /// the start, and all table ids and predictors zero.
    pub fn new() -> (m: Self)
        ensures
            m.wf(),
            m.layout() == fresh_layout(),
            m.predictors() == Seq::new(3, |c: int| 0i16),
            m.blocks() == Seq::new(1, |k: int| zero_block()),
            m.cursors() == Seq::new(1, |k: int| 0int),
            m.block_index() == 0,
    {
        let m = JpegMinimumCodedUnit {
            blocks: [JpegSampleBlock::new();10],
            component_ids: [0;10],
            dc_ids: [0;3],
            ac_ids: [0;3],
            qt_ids: [0;3],
            last_dc: [0;3],
            sampler: JpegSampler::new(),
            index: 0,
            num_blocks_in_mcu: 1,
        };
        proof {
            assert(m.layout().td =~= fresh_layout().td);
            assert(m.layout().ta =~= fresh_layout().ta);
            assert(m.layout().qt =~= fresh_layout().qt);
            assert(m.predictors() =~= Seq::new(3, |c: int| 0i16));
            assert(m.blocks() =~= Seq::new(1, |k: int| zero_block()));
            assert(m.cursors() =~= Seq::new(1, |k: int| 0int));
        }
        m
    }

    /// Block `k` of the MCU, if the MCU has that many blocks.
    pub fn get_block(&self, k: usize) -> (b: Option<JpegSampleBlock>)
        requires
            self.wf(),
        ensures
            match b {
                Some(block) => {
                    &&& k < self.blocks().len()
                    &&& block.wf()
                    &&& block.samples() == self.blocks()[k as int]
                    &&& block.cursor() == self.cursors()[k as int]
                },
                None => k >= self.blocks().len(),
            },
    {
        if k < self.num_blocks_in_mcu {
            assert(self.blocks[k as int].wf());
            Some(self.blocks[k])
        } else {
            None
        }
    }

    /// The DC predictor of component slot `c`, if there is such a slot.
    pub fn get_last_dc(&self, c: usize) -> (p: Option<i16>)
        ensures
            p == if c < 3 {
                Some(self.predictors()[c as int])
            } else {
                None
            },
    {
        if c < 3 {
            Some(self.last_dc[c])
        } else {
            None
        }
    }

    /// The sampling mode of the MCU.
    pub fn get_sampling_mode(&self) -> (mode: JpegSampleMode)
        ensures
            mode == self.layout().mode,
    {
        self.sampler.get_sampling_mode()
    }

    /// Width of the MCU in pixels.
    pub fn get_width(&self) -> (w: usize)
        ensures
            w == self.layout().mode.mcu_width(),
    {
        self.sampler.get_sampling_mode().get_mcu_width()
    }

    /// Height of the MCU in pixels.
    pub fn get_height(&self) -> (h: usize)
        ensures
            h == self.layout().mode.mcu_height(),
    {
        self.sampler.get_sampling_mode().get_mcu_height()
    }

    /// Sets every DC predictor to zero, as at the start of a scan. The
    /// layout and the blocks stay.
    pub fn reset_predictors(&mut self)
        requires
            old(self).wf(),
        ensures
            final(self).wf(),
            final(self).predictors() == Seq::new(3, |c: int| 0i16),
            final(self).layout() == old(self).layout(),
            final(self).blocks() == old(self).blocks(),
            final(self).cursors() == old(self).cursors(),
            final(self).block_index() == old(self).block_index(),
    {
        self.last_dc = [0;3];
        proof {
            assert(self.predictors() =~= Seq::new(3, |c: int| 0i16));
        }
    }

    /// Puts the block index back to the first block. The blocks and the
    /// predictors stay.
    fn reset(&mut self)
        requires
            old(self).wf(),
        ensures
            final(self).wf(),
            final(self).index == 0,
            final(self).num_blocks_in_mcu == old(self).num_blocks_in_mcu,
            final(self).layout() == old(self).layout(),
            final(self).blocks() == old(self).blocks(),
            final(self).cursors() == old(self).cursors(),
            final(self).predictors() == old(self).predictors(),
    {
        self.index = 0;
    }

    /// The component slot of the current block.
    fn get_current_component_id(&self) -> (c: usize)
        requires
            self.wf(),
            self.index < self.num_blocks_in_mcu,
        ensures
            c == self.layout().component_of(self.index as int),
            c < 3,
    {
        self.component_ids[self.index] as usize
    }

    /// The DC Huffman table id of the component of the current block.
    fn get_current_table_id(&self) -> (id: usize)
        requires
            self.wf(),
            self.index < self.num_blocks_in_mcu,
        ensures
            id == self.layout().td[self.layout().component_of(self.index as int)],
            id < 4,
    {
        let c = self.get_current_component_id();
        assert(self.dc_ids[c as int] <= 3);
        self.dc_ids[c] as usize
    }

    /// The AC Huffman table id of the component of the current block.
    fn get_current_ac_table_id(&self) -> (id: usize)
        requires
            self.wf(),
            self.index < self.num_blocks_in_mcu,
        ensures
            id == self.layout().ta[self.layout().component_of(self.index as int)],
            id < 4,
    {
        let c = self.get_current_component_id();
        assert(self.ac_ids[c as int] <= 3);
        self.ac_ids[c] as usize
    }

    /// The quantization table id of the component of the current block.
    fn get_current_qt_id(&self) -> (id: usize)
        requires
            self.wf(),
            self.index < self.num_blocks_in_mcu,
        ensures
            id == self.layout().qt[self.layout().component_of(self.index as int)],
            id < 4,
    {
        let c = self.get_current_component_id();
        assert(self.qt_ids[c as int] <= 3);
        self.qt_ids[c] as usize
    }

    /// The DC predictor of the component of the current block.
    fn get_current_predictor(&self) -> (p: i16)
        requires
            self.wf(),
            self.index < self.num_blocks_in_mcu,
        ensures
            p == self.predictors()[self.layout().component_of(self.index as int)],
    {
        let c = self.get_current_component_id();
        self.last_dc[c]
    }

    /// The current block.
    fn get_current_block(&self) -> (b: JpegSampleBlock)
        requires
            self.wf(),
            self.index < self.num_blocks_in_mcu,
        ensures
            b.wf(),
            b.samples() == self.blocks()[self.index as int],
            b.cursor() == self.cursors()[self.index as int],
    {
        assert(self.blocks[self.index as int].wf());
        self.blocks[self.index]
    }

    /// Replaces the current block and moves on to the next one.
    fn put_current_block(&mut self, block: JpegSampleBlock)
        requires
            old(self).wf(),
            old(self).index < old(self).num_blocks_in_mcu,
            block.wf(),
        ensures
            final(self).wf(),
            final(self).index == old(self).index + 1,
            final(self).num_blocks_in_mcu == old(self).num_blocks_in_mcu,
            final(self).layout() == old(self).layout(),
            final(self).predictors() == old(self).predictors(),
            final(self).blocks() == old(self).blocks().update(old(self).index as int, block.samples()),
            final(self).cursors() == old(self).cursors().update(old(self).index as int, block.cursor()),
    {
        let ghost before = *self;
        self.blocks[self.index] = block;
        self.index = self.index + 1;
        proof {
            assert forall|k: int| 0 <= k < 10 implies (#[trigger] self.blocks[k]).wf() by {
                if k != before.index {
                    assert(self.blocks[k] == before.blocks[k]);
                    assert(before.blocks[k].wf());
                }
            }
            assert(self.blocks() =~= before.blocks().update(before.index as int, block.samples()));
            assert(self.cursors() =~= before.cursors().update(before.index as int, block.cursor()));
        }
    }

    /// Replaces the DC predictor of the component of the current block.
    fn put_current_predictor(&mut self, predictor: i16)
        requires
            old(self).wf(),
            old(self).index < old(self).num_blocks_in_mcu,
        ensures
            final(self).wf(),
            final(self).index == old(self).index,
            final(self).num_blocks_in_mcu == old(self).num_blocks_in_mcu,
            final(self).layout() == old(self).layout(),
            final(self).blocks() == old(self).blocks(),
            final(self).cursors() == old(self).cursors(),
            final(self).predictors() == old(self).predictors().update(
                old(self).layout().component_of(old(self).index as int),
                predictor,
            ),
    {
        let c = self.get_current_component_id();
        self.last_dc[c] = predictor;
    }

    /// Reads the coefficients of all blocks of the MCU at the reader. The
    /// blocks are read in order, each with the tables and the predictor of
    /// its component, and each replaces what its block held. Afterwards
    /// every block is complete, with its cursor at 64, and the block index
    /// is the number of blocks.
    pub fn fill_coefficients(&mut self, dht: &JpegDhtManager, bsreader: &mut JpegBitStreamReader) -> (r:
        Result<(), JpegError>)
        requires
            old(self).wf(),
            dht.wf(),
            old(bsreader).wf(),
        ensures
            final(self).wf(),
            final(self).layout() == old(self).layout(),
            final(bsreader).wf(),
            final(bsreader).data() == old(bsreader).data(),
            match mcu_coefficients_at(
                old(self).layout(),
                dht@,
                old(bsreader).data(),
                ScanState {
                    pos: old(bsreader).pos(),
                    bit: old(bsreader).bit(),
                    predictors: old(self).predictors(),
                },
                0,
                Seq::empty(),
            ) {
                Ok((blocks, st)) => {
                    &&& r == Ok::<(), JpegError>(())
                    &&& final(self).blocks() == blocks
                    &&& final(self).cursors() == Seq::new(
                        old(self).layout().num_blocks() as nat,
                        |k: int| 64int,
                    )
                    &&& final(self).block_index() == old(self).layout().num_blocks()
                    &&& final(self).predictors() == st.predictors
                    &&& final(bsreader).pos() == st.pos
                    &&& final(bsreader).bit() == st.bit
                },
                Err(e) => r == Err::<(), JpegError>(e),
            },
    {
        let ghost layout = self.layout();
        let ghost data = bsreader.data();
        let ghost target = mcu_coefficients_at(
            layout,
            dht@,
            data,
            ScanState { pos: bsreader.pos(), bit: bsreader.bit(), predictors: self.predictors() },
            0,
            Seq::empty(),
        );
        self.reset();
        proof {
            assert(self.blocks().take(0) =~= Seq::<Seq<i16>>::empty());
        }
        while self.index < self.num_blocks_in_mcu
            invariant
                self.wf(),
                dht.wf(),
                bsreader.wf(),
                bsreader.data() == data,
                data == old(bsreader).data(),
                self.layout() == layout,
                layout == old(self).layout(),
                self.index <= self.num_blocks_in_mcu,
                self.num_blocks_in_mcu == layout.num_blocks(),
                self.blocks().len() == layout.num_blocks(),
                self.cursors().len() == layout.num_blocks(),
                forall|j: int| 0 <= j < self.index ==> #[trigger] self.cursors()[j] == 64,
                target == mcu_coefficients_at(
                    old(self).layout(),
                    dht@,
                    old(bsreader).data(),
                    ScanState {
                        pos: old(bsreader).pos(),
                        bit: old(bsreader).bit(),
                        predictors: old(self).predictors(),
                    },
                    0,
                    Seq::empty(),
                ),
                mcu_coefficients_at(
                    layout,
                    dht@,
                    data,
                    ScanState { pos: bsreader.pos(), bit: bsreader.bit(), predictors: self.predictors() },
                    self.index as int,
                    self.blocks().take(self.index as int),
                ) == target,
            decreases self.num_blocks_in_mcu - self.index,
        {
            let ghost k = self.index as int;
            let ghost done = self.blocks().take(k);
            let td = self.get_current_table_id();
            let ta = self.get_current_ac_table_id();
            let predictor = self.get_current_predictor();
            let mut block = self.get_current_block();
            match block.fill_coefficients(dht, td, ta, predictor, bsreader) {
                Ok(next) => {
                    self.put_current_predictor(next);
                    self.put_current_block(block);
                    proof {
                        assert(self.blocks().take(k + 1) =~= done.push(block.samples()));
                    }
                },
                Err(e) => {
                    return Err(e);
                },
            }
        }
        proof {
            assert(self.blocks().take(self.index as int) =~= self.blocks());
            assert(self.cursors() =~= Seq::new(layout.num_blocks() as nat, |k: int| 64int));
        }
        Ok(())
    }

    /// Dequantizes every block of the MCU with the quantization table of
    /// its component. Afterwards the cursor of every block is 64 and the
    /// block index is the number of blocks. Fails where a product does not
    /// fit in 16 signed bits.
    pub fn dequantize(&mut self, dqt: &JpegDqtManager) -> (r: Result<(), JpegError>)
        requires
            old(self).wf(),
        ensures
            final(self).wf(),
            final(self).layout() == old(self).layout(),
            final(self).predictors() == old(self).predictors(),
            if mcu_dequantization_fits(old(self).layout(), dqt@, old(self).blocks()) {
                &&& r == Ok::<(), JpegError>(())
                &&& final(self).blocks() == mcu_dequantized(old(self).layout(), dqt@, old(self).blocks())
                &&& final(self).cursors() == Seq::new(
                    old(self).layout().num_blocks() as nat,
                    |k: int| 64int,
                )
                &&& final(self).block_index() == old(self).layout().num_blocks()
            } else {
                r == Err::<(), JpegError>(JpegError::LogicError)
            },
    {
        let ghost layout = self.layout();
        let ghost start = self.blocks();
        self.reset();
        proof {
            dqt.lemma_view_len();
        }
        while self.index < self.num_blocks_in_mcu
            invariant
                self.wf(),
                self.layout() == layout,
                layout == old(self).layout(),
                start == old(self).blocks(),
                self.predictors() == old(self).predictors(),
                self.index <= self.num_blocks_in_mcu,
                self.num_blocks_in_mcu == layout.num_blocks(),
                self.blocks().len() == layout.num_blocks(),
                self.cursors().len() == layout.num_blocks(),
                start.len() == layout.num_blocks(),
                dqt@.len() == 4,
                forall|i: int| 0 <= i < 4 ==> (#[trigger] dqt@[i]).len() == 64,
                forall|j: int| 0 <= j < self.index ==> #[trigger] self.cursors()[j] == 64,
                forall|j: int|
                    0 <= j < self.index ==> dequantization_fits(
                        #[trigger] start[j],
                        dqt@[layout.qt[layout.component_of(j)]],
                    ),
                forall|j: int|
                    0 <= j < self.index ==> #[trigger] self.blocks()[j] == dequantized(
                        start[j],
                        dqt@[layout.qt[layout.component_of(j)]],
                    ),
                forall|j: int|
                    self.index <= j < self.num_blocks_in_mcu ==> #[trigger] self.blocks()[j] == start[j],
            decreases self.num_blocks_in_mcu - self.index,
        {
            let ghost k = self.index as int;
            let table_id = self.get_current_qt_id();
            let mut block = self.get_current_block();
            assert(self.blocks()[k] == start[k]);
            match block.scale_coefficients(dqt.get_qt_slice(table_id)) {
                Ok(()) => {},
                Err(e) => {
                    proof {
                        assert(!dequantization_fits(start[k], dqt@[layout.qt[layout.component_of(k)]]));
                    }
                    return Err(e);
                },
            }
            self.put_current_block(block);
        }
        proof {
            assert(self.blocks() =~= mcu_dequantized(layout, dqt@, start));
            assert(self.cursors() =~= Seq::new(layout.num_blocks() as nat, |k: int| 64int));
        }
        Ok(())
    }

    /// Transforms the coefficients of every block of the MCU into
    /// samples. The cursors of the blocks stay, and the block index is the
    /// number of blocks afterwards.
    pub fn transform(&mut self)
        requires
            old(self).wf(),
        ensures
            final(self).wf(),
            final(self).layout() == old(self).layout(),
            final(self).predictors() == old(self).predictors(),
            final(self).blocks() == mcu_transformed(old(self).layout(), old(self).blocks()),
            final(self).cursors() == old(self).cursors(),
            final(self).block_index() == old(self).layout().num_blocks(),
    {
        let ghost layout = self.layout();
        let ghost start = self.blocks();
        let ghost cursors = self.cursors();
        self.reset();
        while self.index < self.num_blocks_in_mcu
            invariant
                self.wf(),
                self.layout() == layout,
                layout == old(self).layout(),
                self.predictors() == old(self).predictors(),
                self.cursors() == cursors,
                self.index <= self.num_blocks_in_mcu,
                self.num_blocks_in_mcu == layout.num_blocks(),
                self.blocks().len() == layout.num_blocks(),
                cursors.len() == layout.num_blocks(),
                start.len() == layout.num_blocks(),
                forall|j: int| 0 <= j < self.index ==> #[trigger] self.blocks()[j] == idct_block(start[j]),
                forall|j: int|
                    self.index <= j < self.num_blocks_in_mcu ==> #[trigger] self.blocks()[j] == start[j],
            decreases self.num_blocks_in_mcu - self.index,
        {
            let ghost k = self.index as int;
            let mut block = self.get_current_block();
            assert(self.blocks()[k] == start[k]);
            block.transform();
            self.put_current_block(block);
            proof {
                assert(self.cursors() =~= cursors);
            }
        }
        proof {
            assert(self.blocks() =~= mcu_transformed(layout, start));
        }
    }

    /// Writes the pixels of the MCU to the rectangle of the raster
    /// `out_buf` that starts at `out_pos`. Fails without writing when the
    /// raster does not have three bytes for each pixel or when the
    /// rectangle does not lie inside the raster.
    pub fn upsampling(&self, out_buf: &mut [u8], out_info: &JpegOutBufferInfo, out_pos: usize) -> (r:
        Result<(), JpegError>)
        requires
            self.wf(),
        ensures
            final(out_buf)@.len() == old(out_buf)@.len(),
            r == upsampling_result(
                self.layout().mode,
                self.layout().num_blocks(),
                old(out_buf)@.len() as int,
                out_info.width(),
                out_info.bpp(),
                out_pos as int,
            ),
            r.is_ok() ==> is_mcu_written(
                self.layout().mode,
                self.blocks(),
                old(out_buf)@,
                final(out_buf)@,
                out_pos as int,
                out_info.width() * 3,
            ),
            r.is_err() ==> final(out_buf)@ == old(out_buf)@,
    {
        let all = self.blocks.as_slice();
        let used = vstd::slice::slice_subrange(all, 0, self.num_blocks_in_mcu);
        proof {
            assert(block_samples(used@) =~= self.blocks());
        }
        self.sampler.upsampling(used, out_buf, out_info, out_pos)
    }

    /// Lays the MCU out for the frame and scan described by `fh`: the
    /// sampling mode fixes the blocks and their components, and the slots
    /// of the frame's components get the table ids of the headers. The DC
    /// predictors, the block index and the blocks that the MCU has before
    /// and after stay as they are. Fails without a change where the
    /// sampling factors of the frame are not supported.
    pub fn set_mode(&mut self, fh: &JpegFrameHeaderInfo) -> (r: Result<(), JpegError>)
        requires
            old(self).wf(),
            fh.wf(),
        ensures
            final(self).wf(),
            final(self).predictors() == old(self).predictors(),
            final(self).block_index() == old(self).block_index(),
            match mcu_layout_from(fh@, old(self).layout()) {
                Some(layout) => {
                    &&& r == Ok::<(), JpegError>(())
                    &&& final(self).layout() == layout
                    &&& final(self).blocks().len() == layout.num_blocks()
                    &&& final(self).cursors().len() == layout.num_blocks()
                    &&& forall|k: int|
                        0 <= k < old(self).blocks().len() && k < layout.num_blocks()
                            ==> #[trigger] final(self).blocks()[k] == old(self).blocks()[k]
                    &&& forall|k: int|
                        0 <= k < old(self).cursors().len() && k < layout.num_blocks()
                            ==> #[trigger] final(self).cursors()[k] == old(self).cursors()[k]
                },
                None => {
                    &&& r == Err::<(), JpegError>(JpegError::UnsupportedFeature)
                    &&& final(self).layout() == old(self).layout()
                    &&& final(self).blocks() == old(self).blocks()
                    &&& final(self).cursors() == old(self).cursors()
                },
            },
    {
        proof {
            fh.lemma_view_valid();
        }
        let num_components = fh.get_num_components();
        let mode = if num_components == 1 {
            if fh.get_sampling_factor(0).get_raw() == 0x11 {
                JpegSampleMode::JpegSampleModeNone
            } else {
                return Err(JpegError::UnsupportedFeature);
            }
        } else if num_components == 3 {
            let luma = fh.get_sampling_factor(0).get_raw();
            let chroma_b = fh.get_sampling_factor(1).get_raw();
            let chroma_r = fh.get_sampling_factor(2).get_raw();
            if chroma_b != 0x11 || chroma_r != 0x11 {
                return Err(JpegError::UnsupportedFeature);
            }
            if luma == 0x11 {
                JpegSampleMode::JpegSampleMode444
            } else if luma == 0x21 {
                JpegSampleMode::JpegSampleMode422
            } else if luma == 0x12 {
                JpegSampleMode::JpegSampleMode440
            } else if luma == 0x22 {
                JpegSampleMode::JpegSampleMode420
            } else {
                return Err(JpegError::UnsupportedFeature);
            }
        } else {
            return Err(JpegError::UnsupportedFeature);
        };
        let ghost before = *self;
        let num_blocks = mode.get_num_blocks();
        let mut component_ids: [u8; 10] = [0;10];
        if num_blocks >= 3 {
            component_ids[num_blocks - 2] = 1;
            component_ids[num_blocks - 1] = 2;
        }
        let mut j: usize = 0;
        while j < num_components
            invariant
                0 <= j <= num_components <= 3,
                num_components == fh@.num_components,
                fh.wf(),
                fh@.valid(),
                self.blocks == before.blocks,
                self.last_dc == before.last_dc,
                self.index == before.index,
                forall|c: int| 0 <= c < j ==> #[trigger] self.dc_ids[c] as int == fh@.td[c],
                forall|c: int| 0 <= c < j ==> #[trigger] self.ac_ids[c] as int == fh@.ta[c],
                forall|c: int| 0 <= c < j ==> #[trigger] self.qt_ids[c] as int == fh@.qt[c],
                forall|c: int| j <= c < 3 ==> #[trigger] self.dc_ids[c] == before.dc_ids[c],
                forall|c: int| j <= c < 3 ==> #[trigger] self.ac_ids[c] == before.ac_ids[c],
                forall|c: int| j <= c < 3 ==> #[trigger] self.qt_ids[c] == before.qt_ids[c],
            decreases num_components - j,
        {
            self.dc_ids[j] = fh.get_dc_table_id(j) as u8;
            self.ac_ids[j] = fh.get_ac_table_id(j) as u8;
            self.qt_ids[j] = fh.get_table_id(j) as u8;
            j = j + 1;
        }
        self.component_ids = component_ids;
        self.num_blocks_in_mcu = num_blocks;
        self.sampler.set_sampling_mode(mode);
        proof {
            let layout = mcu_layout_from(fh@, before.layout())->Some_0;
            assert(self.layout().td =~= layout.td);
            assert(self.layout().ta =~= layout.ta);
            assert(self.layout().qt =~= layout.qt);
            assert forall|c: int| 0 <= c < 3 implies #[trigger] self.dc_ids[c] <= 3 by {
                if c < num_components {
                    assert(self.dc_ids[c] as int == fh@.td[c]);
                } else {
                    assert(self.dc_ids[c] == before.dc_ids[c]);
                    assert(before.dc_ids[c] <= 3);
                }
            }
            assert forall|c: int| 0 <= c < 3 implies #[trigger] self.ac_ids[c] <= 3 by {
                if c < num_components {
                    assert(self.ac_ids[c] as int == fh@.ta[c]);
                } else {
                    assert(self.ac_ids[c] == before.ac_ids[c]);
                    assert(before.ac_ids[c] <= 3);
                }
            }
            assert forall|c: int| 0 <= c < 3 implies #[trigger] self.qt_ids[c] <= 3 by {
                if c < num_components {
                    assert(self.qt_ids[c] as int == fh@.qt[c]);
                } else {
                    assert(self.qt_ids[c] == before.qt_ids[c]);
                    assert(before.qt_ids[c] <= 3);
                }
            }
            assert forall|k: int| 0 <= k < 10 implies (#[trigger] self.blocks[k]).wf() by {
                assert(before.blocks[k].wf());
            }
        }
        Ok(())
    }
}

} // verus!
