//! Quantization tables. A table holds 64 values in natural (row-major)
//! order; a DQT segment stores them in zig-zag order.

use vstd::prelude::*;
use crate::jpeg_constants::JPEG_SAMPLE_BLOCK_SIZE;
use crate::jpeg_constants::lemma_zigzag_inverse;
use crate::jpeg_constants::rev_zigzag;
use crate::jpeg_constants::rev_zigzag_index;
use crate::jpeg_constants::zigzag;
use crate::jpeg_error::JpegError;
use crate::jpeg_raw_data::JpegReader;

verus! {

/// Number of quantization tables of a decoder.
pub const JPEG_NUM_DQT: usize = 4;

/// One quantization table in natural order.
#[derive(Clone, Copy)]
pub struct JpegQuantizationTable {
    sample: [u16; JPEG_SAMPLE_BLOCK_SIZE],
}

/// The quantization tables of a decoder, by table id.
pub struct JpegDqtManager {
    qt: [JpegQuantizationTable; JPEG_NUM_DQT],
}

/// The 64 table entries stored in zig-zag order at `pos`, in natural
/// order, and the position behind them.
pub open spec fn quantization_table_at(data: Seq<u8>, pos: int) -> Result<(Seq<u16>, int), JpegError> {
    if pos < 0 || pos + 64 > data.len() {
        Err(JpegError::TruncatedInput)
    } else {
        Ok((Seq::new(64, |k: int| data[pos + zigzag(k)] as u16), pos + 64))
    }
}

/// One table definition of a DQT segment at `pos`: a byte with the
/// precision in its high four bits, which has to be zero for 8-bit
/// entries, and the table id in its low four, then the 64 entries. Gives
/// the tables with that one replaced, and the position behind the
/// definition.
pub open spec fn dqt_definition_at(tables: Seq<Seq<u16>>, data: Seq<u8>, pos: int) -> Result<
    (Seq<Seq<u16>>, int),
    JpegError,
> {
    if pos < 0 || pos >= data.len() {
        Err(JpegError::TruncatedInput)
    } else if data[pos] / 16 != 0 {
        Err(JpegError::UnsupportedFeature)
    } else if data[pos] % 16 > 3 {
        Err(JpegError::LogicError)
    } else {
        match quantization_table_at(data, pos + 1) {
            Err(e) => Err(e),
            Ok((table, next)) => Ok((tables.update(data[pos] as int % 16, table), next)),
        }
    }
}

/// The content of the quantization tables of a decoder before any table
/// is defined: four tables of zeros.
pub open spec fn zero_tables() -> Seq<Seq<u16>> {
    Seq::new(4, |i: int| Seq::new(64, |k: int| 0u16))
}

impl View for JpegQuantizationTable {
    type V = Seq<u16>;

    closed spec fn view(&self) -> Seq<u16> {
        self.sample@
    }
}

impl JpegQuantizationTable {
    /// A table of zeros.
    pub fn new() -> (t: Self)
        ensures
            t@ == Seq::new(64, |k: int| 0u16),
    {
        let t = JpegQuantizationTable { sample: [0;64] };
        t
    }

    /// Reads 64 entries in zig-zag order at the reader and stores them in
    /// natural order. On failure the table stays as it was.
    pub fn read_table(&mut self, reader: &mut JpegReader) -> (r: Result<(), JpegError>)
        ensures
            final(reader).data() == old(reader).data(),
            match quantization_table_at(old(reader).data(), old(reader).pos()) {
                Ok((table, next)) => {
                    &&& r == Ok::<(), JpegError>(())
                    &&& final(self)@ == table
                    &&& final(reader).pos() == next
                },
                Err(e) => r == Err::<(), JpegError>(e) && final(self)@ == old(self)@,
            },
    {
        let ghost data = reader.data();
        let ghost start = reader.pos();
        proof {
            reader.lemma_pos_bounds();
        }
        let mut sample: [u16; 64] = [0;64];
        let mut i: usize = 0;
        while i < 64
            invariant
                0 <= i <= 64,
                data == old(reader).data(),
                start == old(reader).pos(),
                0 <= start,
                reader.data() == data,
                reader.pos() == start + i,
                i == 0 || start + i <= data.len(),
                *self == *old(self),
                forall|j: int| 0 <= j < i ==> sample@[rev_zigzag(j)] == data[start + j] as u16,
            decreases 64 - i,
        {
            proof {
                lemma_zigzag_inverse();
            }
            match reader.read_u8() {
                Ok(b) => {
                    sample[rev_zigzag_index(i)] = b as u16;
                },
                Err(e) => {
                    return Err(e);
                },
            }
            i = i + 1;
        }
        self.sample = sample;
        proof {
            lemma_zigzag_inverse();
        }
        Ok(())
    }

    /// The 64 entries in natural order.
    pub fn get_slice(&self) -> (s: &[u16])
        ensures
            s@ == self@,
    {
        &self.sample
    }
}

impl View for JpegDqtManager {
    type V = Seq<Seq<u16>>;

    closed spec fn view(&self) -> Seq<Seq<u16>> {
        Seq::new(4, |i: int| self.qt[i]@)
    }
}

impl JpegDqtManager {
    /// There are four tables of 64 entries.
    pub proof fn lemma_view_len(&self)
        ensures
            self@.len() == 4,
            forall|i: int| 0 <= i < 4 ==> (#[trigger] self@[i]).len() == 64,
    {
    }

    /// Four tables of zeros.
    pub fn new() -> (m: Self)
        ensures
            m@ == zero_tables(),
    {
        let m = JpegDqtManager { qt: [JpegQuantizationTable::new();4] };
        m
    }

    /// Reads one table definition of a DQT segment at the reader and puts
    /// the table in its slot. On failure the tables stay as they were.
    pub fn read_table(&mut self, reader: &mut JpegReader) -> (r: Result<(), JpegError>)
        ensures
            final(reader).data() == old(reader).data(),
            match dqt_definition_at(old(self)@, old(reader).data(), old(reader).pos()) {
                Ok((tables, next)) => r == Ok::<(), JpegError>(()) && final(self)@ == tables
                    && final(reader).pos() == next,
                Err(e) => r == Err::<(), JpegError>(e) && final(self)@ == old(self)@,
            },
    {
        proof {
            reader.lemma_pos_bounds();
        }
        let id = match reader.read_u8() {
            Ok(b) => b,
            Err(e) => {
                return Err(e);
            },
        };
        let precision: u8 = id / 16;
        if precision != 0 {
            return Err(JpegError::UnsupportedFeature);
        }
        let idx: usize = (id % 16) as usize;
        if idx > 3 {
            return Err(JpegError::LogicError);
        }
        let r = self.qt[idx].read_table(reader);
        r
    }

    /// Table `table_id` as a slice of 64 entries in natural order.
    pub fn get_qt_slice(&self, table_id: usize) -> (s: &[u16])
        requires
            table_id < 4,
        ensures
            s@ == self@[table_id as int],
    {
        self.qt[table_id].get_slice()
    }
}

} // verus!
