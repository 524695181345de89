//! The raw bytes of a JPEG file and the two cursors that walk them: a byte
//! reader for the marker segments and a bit reader for the entropy-coded
//! segment.
//!
//! Inside entropy-coded data a literal byte 0xFF is always followed by a
//! stuffed 0x00 that carries no data; 0xFF followed by anything else is a
//! marker and ends the entropy-coded data. The spec functions below define
//! the bit reader's operations directly on the raw bytes, and the lemmas
//! relate them to the stream of entropy bytes with the stuffing removed.

use vstd::prelude::*;
use vstd::arithmetic::power2::pow2;
use vstd::bits::lemma_u32_shr_is_div;
use crate::jpeg_error::JpegError;

verus! {

/// The bytes of one JPEG file, immutable once loaded.
pub struct JpegRawData {
    data: Vec<u8>,
}

/// A byte cursor over the raw data, used for the marker segments.
pub struct JpegReader<'a> {
    data_ref: &'a JpegRawData,
    read_pos: usize,
}

/// A bit cursor over the raw data, used for the entropy-coded segment. The
/// cursor is a byte position and a bit position in that byte, counted from
/// the most significant bit.
pub struct JpegBitStreamReader<'a> {
    data_ref: &'a JpegRawData,
    read_pos: usize,
    read_bitpos: usize,
}

/// Whether `pos` holds a byte of entropy-coded data: a byte inside the
/// input that is not the 0xFF of a marker. A 0xFF at the very end of the
/// input has no stuffed zero behind it and ends the data as a marker does.
pub open spec fn is_entropy_byte(data: Seq<u8>, pos: int) -> bool {
    &&& 0 <= pos < data.len()
    &&& (data[pos] != 0xFF || (pos + 1 < data.len() && data[pos + 1] == 0x00))
}

/// The position of the entropy byte after the one at `pos`: a 0xFF takes
/// its stuffed zero with it.
pub open spec fn next_entropy_pos(data: Seq<u8>, pos: int) -> int {
    if data[pos] == 0xFF {
        pos + 2
    } else {
        pos + 1
    }
}

/// The entropy bytes from `pos` up to the next marker or the end of the
/// input, with every stuffed zero removed.
pub open spec fn entropy_bytes(data: Seq<u8>, pos: int) -> Seq<u8>
    decreases data.len() - pos,
{
    if is_entropy_byte(data, pos) {
        seq![data[pos]] + entropy_bytes(data, next_entropy_pos(data, pos))
    } else {
        Seq::empty()
    }
}

/// The position at which the entropy-coded data that starts at `pos` ends:
/// the 0xFF of the next marker, or the end of the input.
pub open spec fn entropy_end(data: Seq<u8>, pos: int) -> int
    decreases data.len() - pos,
{
    if is_entropy_byte(data, pos) {
        entropy_end(data, next_entropy_pos(data, pos))
    } else {
        pos
    }
}

/// Byte `i` of a stream, or zero behind its end.
pub open spec fn stream_byte(s: Seq<u8>, i: int) -> int {
    if 0 <= i < s.len() {
        s[i] as int
    } else {
        0
    }
}

/// The 16 bits of stream `s` that start `bit` bits into its first byte,
/// most significant first, padded with zeros behind the end of the stream.
pub open spec fn stream_peek16(s: Seq<u8>, bit: int) -> int {
    ((stream_byte(s, 0) * 65536 + stream_byte(s, 1) * 256 + stream_byte(s, 2)) / (pow2(
        (8 - bit) as nat,
    ) as int)) % 65536
}

/// The next 16 bits at the cursor (`pos`, `bit`) of the raw data, with the
/// stuffing removed and zeros behind the end of the entropy-coded data.
pub open spec fn peek16(data: Seq<u8>, pos: int, bit: int) -> int {
    stream_peek16(entropy_bytes(data, pos), bit)
}

/// The position reached from `pos` after `k` whole entropy bytes, if that
/// many are left.
pub open spec fn skip_entropy_bytes(data: Seq<u8>, pos: int, k: int) -> Option<int>
    decreases k,
{
    if k <= 0 {
        Some(pos)
    } else if is_entropy_byte(data, pos) {
        skip_entropy_bytes(data, next_entropy_pos(data, pos), k - 1)
    } else {
        None
    }
}

/// The cursor reached from (`pos`, `bit`) after `n` bits of entropy-coded
/// data, if that many are left before the next marker or the end of the
/// input. Every stuffed zero that is crossed is skipped.
pub open spec fn advance(data: Seq<u8>, pos: int, bit: int, n: int) -> Option<(int, int)> {
    match skip_entropy_bytes(data, pos, (bit + n) / 8) {
        Some(p) => if (bit + n) % 8 == 0 || is_entropy_byte(data, p) {
            Some((p, (bit + n) % 8))
        } else {
            None
        },
        None => None,
    }
}

/// A literal 0xFF and its stuffed zero count as the single byte 0xFF: the
/// zero is absent from the entropy bytes.
pub proof fn lemma_stuffed_zero_absent(data: Seq<u8>, pos: int)
    requires
        0 <= pos,
        pos + 1 < data.len(),
        data[pos] == 0xFF,
        data[pos + 1] == 0x00,
    ensures
        entropy_bytes(data, pos) == seq![0xFFu8] + entropy_bytes(data, pos + 2),
{
}

/// A byte other than 0xFF is an entropy byte as it stands.
pub proof fn lemma_plain_byte_present(data: Seq<u8>, pos: int)
    requires
        0 <= pos < data.len(),
        data[pos] != 0xFF,
    ensures
        entropy_bytes(data, pos) == seq![data[pos]] + entropy_bytes(data, pos + 1),
{
}

/// A 0xFF that no stuffed zero follows ends the entropy-coded data: no
/// entropy byte is read at or behind it.
pub proof fn lemma_marker_ends_entropy(data: Seq<u8>, pos: int)
    requires
        0 <= pos < data.len(),
        data[pos] == 0xFF,
        pos + 1 >= data.len() || data[pos + 1] != 0x00,
    ensures
        entropy_bytes(data, pos) == Seq::<u8>::empty(),
        entropy_end(data, pos) == pos,
        forall|bit: int| peek16(data, pos, bit) == 0,
        forall|bit: int, n: int| 0 <= bit < 8 && 0 < n ==> advance(data, pos, bit, n).is_none(),
{
    assert forall|bit: int| peek16(data, pos, bit) == 0 by {
        vstd::arithmetic::power2::lemma_pow2_pos((8 - bit) as nat);
        let d = pow2((8 - bit) as nat) as int;
        assert(0int / d == 0) by (nonlinear_arith)
            requires
                d > 0,
        ;
    }
}

/// Skipping `k` entropy bytes succeeds exactly when the stream holds `k`
/// bytes, drops the first `k` bytes of the stream, and stays in front of
/// the end of the entropy-coded data.
pub proof fn lemma_skip_entropy_bytes(data: Seq<u8>, pos: int, k: int)
    requires
        0 <= k,
    ensures
        skip_entropy_bytes(data, pos, k).is_some() <==> k <= entropy_bytes(data, pos).len(),
        skip_entropy_bytes(data, pos, k) matches Some(p) ==> {
            &&& entropy_bytes(data, p) == entropy_bytes(data, pos).skip(k)
            &&& entropy_end(data, p) == entropy_end(data, pos)
            &&& pos <= p <= entropy_end(data, pos)
        },
    decreases k,
{
    if k == 0 {
        lemma_entropy_end_bounds(data, pos);
    } else if is_entropy_byte(data, pos) {
        let next = next_entropy_pos(data, pos);
        lemma_skip_entropy_bytes(data, next, k - 1);
    }
}

/// The entropy-coded data that starts at `pos` does not end before `pos`.
pub proof fn lemma_entropy_end_bounds(data: Seq<u8>, pos: int)
    ensures
        pos <= entropy_end(data, pos),
        0 <= pos <= data.len() ==> entropy_end(data, pos) <= data.len(),
    decreases data.len() - pos,
{
    if is_entropy_byte(data, pos) {
        lemma_entropy_end_bounds(data, next_entropy_pos(data, pos));
    }
}

/// Advancing the cursor moves through the stream without its stuffing: it
/// succeeds exactly when `n` bits are left in the entropy bytes, it leaves
/// the rest of those bytes in place, and it never passes the 0xFF of the
/// marker that ends them.
pub proof fn lemma_advance_follows_stream(data: Seq<u8>, pos: int, bit: int, n: int)
    requires
        0 <= bit < 8,
        0 <= n,
    ensures
        advance(data, pos, bit, n).is_some() <==> bit + n <= 8 * entropy_bytes(data, pos).len(),
        advance(data, pos, bit, n) matches Some(c) ==> {
            &&& entropy_bytes(data, c.0) == entropy_bytes(data, pos).skip((bit + n) / 8)
            &&& c.1 == (bit + n) % 8
            &&& pos <= c.0 <= entropy_end(data, pos)
            &&& entropy_end(data, c.0) == entropy_end(data, pos)
        },
{
    let k = (bit + n) / 8;
    lemma_skip_entropy_bytes(data, pos, k);
    match skip_entropy_bytes(data, pos, k) {
        Some(p) => {
            assert(entropy_bytes(data, pos).skip(k).len() == entropy_bytes(data, pos).len() - k);
        },
        None => {},
    }
}

/// Bit `k` of a stream, counted from the most significant bit of its first
/// byte, or zero behind its end.
pub open spec fn stream_bit(s: Seq<u8>, k: int) -> int {
    (stream_byte(s, k / 8) / (pow2((7 - k % 8) as nat) as int)) % 2
}

/// The 16 bits that are peeked are the next 16 bits of the stream, most
/// significant first: bit `i` of the result, counted from its most
/// significant bit, is bit `bit + i` of the stream.
pub proof fn lemma_peek16_bits(s: Seq<u8>, bit: int, i: int)
    requires
        0 <= bit < 8,
        0 <= i < 16,
    ensures
        (stream_peek16(s, bit) / (pow2((15 - i) as nat) as int)) % 2 == stream_bit(s, bit + i),
{
    let b0: u32 = stream_byte(s, 0) as u32;
    let b1: u32 = stream_byte(s, 1) as u32;
    let b2: u32 = stream_byte(s, 2) as u32;
    let window: u32 = (b0 * 65536 + b1 * 256 + b2) as u32;
    let shift: u32 = (8 - bit) as u32;
    let peeked: u32 = (window >> shift) % 65536;
    let down: u32 = (15 - i) as u32;
    let n: u32 = (bit + i) as u32;
    let byte: u32 = if n < 8 {
        b0
    } else if n < 16 {
        b1
    } else {
        b2
    };
    let within: u32 = (7 - n % 8) as u32;
    lemma_u32_shr_is_div(window, shift);
    lemma_u32_shr_is_div(peeked, down);
    lemma_u32_shr_is_div(byte, within);
    assert(((peeked >> down) % 2) == ((byte >> within) % 2)) by (bit_vector)
        requires
            b0 < 256,
            b1 < 256,
            b2 < 256,
            window == b0 * 65536 + b1 * 256 + b2,
            1 <= shift <= 8,
            down <= 15,
            peeked == (window >> shift) % 65536,
            n == (8 - shift) + (15 - down),
            byte == if n < 8 {
                b0
            } else if n < 16 {
                b1
            } else {
                b2
            },
            within == 7 - n % 8,
    ;
}

/// What is peeked depends on the entropy bytes alone: two inputs whose
/// entropy bytes agree, one of them perhaps without the stuffing, give the
/// same 16 bits.
pub proof fn lemma_peek16_of_stream(a: Seq<u8>, pa: int, b: Seq<u8>, pb: int, bit: int)
    requires
        entropy_bytes(a, pa) == entropy_bytes(b, pb),
    ensures
        peek16(a, pa, bit) == peek16(b, pb, bit),
{
}

/// Byte `k + 1` of the stream at `pos` is byte `k` of the stream at the
/// next entropy position.
proof fn lemma_stream_byte_next(data: Seq<u8>, pos: int, k: int)
    requires
        0 <= k,
    ensures
        is_entropy_byte(data, pos) ==> stream_byte(entropy_bytes(data, pos), k + 1) == stream_byte(
            entropy_bytes(data, next_entropy_pos(data, pos)),
            k,
        ) && stream_byte(entropy_bytes(data, pos), 0) == data[pos],
        !is_entropy_byte(data, pos) ==> stream_byte(entropy_bytes(data, pos), k) == 0,
{
}

impl View for JpegRawData {
    type V = Seq<u8>;

    closed spec fn view(&self) -> Seq<u8> {
        self.data@
    }
}

impl JpegRawData {
    /// The bytes fit in memory, so their number fits in a `usize`.
    pub proof fn lemma_size_bounded(&self)
        ensures
            self@.len() <= usize::MAX,
    {
        assert(self.data@.len() == self.data.len());
    }

    /// Raw data without any byte.
    pub fn new() -> (r: Self)
        ensures
            r@ == Seq::<u8>::empty(),
    {
        JpegRawData { data: Vec::new() }
    }

    /// Replaces the content by `bytes`.
    pub fn load(&mut self, bytes: Vec<u8>)
        ensures
            final(self)@ == bytes@,
    {
        self.data = bytes;
    }

    /// Number of bytes held.
    pub fn get_size(&self) -> (n: usize)
        ensures
            n == self@.len(),
    {
        self.data.len()
    }

    /// The byte at `pos`, if there is one.
    pub fn read_u8(&self, pos: usize) -> (r: Option<u8>)
        ensures
            r == if pos < self@.len() {
                Some(self@[pos as int])
            } else {
                None
            },
    {
        if pos >= self.data.len() {
            None
        } else {
            Some(self.data[pos])
        }
    }

    /// The big-endian 16-bit value at `pos`, if two bytes are there.
    pub fn read_u16be(&self, pos: usize) -> (r: Option<u16>)
        ensures
            r == if pos + 1 < self@.len() {
                Some((self@[pos as int] as int * 256 + self@[pos + 1] as int) as u16)
            } else {
                None
            },
    {
        if pos >= self.data.len() || pos + 1 >= self.data.len() {
            None
        } else {
            let hi: u16 = self.data[pos] as u16;
            let lo: u16 = self.data[pos + 1] as u16;
            Some(hi * 256 + lo)
        }
    }
}

impl<'a> JpegReader<'a> {
    /// The bytes that the reader walks.
    pub closed spec fn data(&self) -> Seq<u8> {
        self.data_ref@
    }

    /// The position of the next byte to read.
    pub closed spec fn pos(&self) -> int {
        self.read_pos as int
    }

    /// The position is no negative number.
    pub proof fn lemma_pos_bounds(&self)
        ensures
            0 <= self.pos() <= usize::MAX,
    {
    }

    /// A reader at the first byte of `data`.
    pub fn new(data: &'a JpegRawData) -> (r: Self)
        ensures
            r.data() == data@,
            r.pos() == 0,
    {
        JpegReader { data_ref: data, read_pos: 0 }
    }

    /// A second reader over the same bytes at the same position.
    pub fn copy(&self) -> (r: Self)
        ensures
            r.data() == self.data(),
            r.pos() == self.pos(),
    {
        JpegReader { data_ref: self.data_ref, read_pos: self.read_pos }
    }

    /// The position of the next byte to read.
    pub fn get_pos(&self) -> (p: usize)
        ensures
            p == self.pos(),
    {
        self.read_pos
    }

    /// Places the reader at byte `pos`.
    pub fn set_pos(&mut self, pos: usize)
        ensures
            final(self).data() == old(self).data(),
            final(self).pos() == pos,
    {
        self.read_pos = pos;
    }

    /// Moves the position by `offset` bytes, stopping at the first byte
    /// when moving backwards.
    pub fn move_pos(&mut self, offset: isize)
        requires
            old(self).pos() + offset <= usize::MAX,
        ensures
            final(self).data() == old(self).data(),
            final(self).pos() == if old(self).pos() + offset < 0 {
                0
            } else {
                old(self).pos() + offset
            },
    {
        if offset >= 0 {
            self.read_pos = self.read_pos + offset as usize;
        } else {
            let back: usize = (-(offset + 1)) as usize + 1;
            if back > self.read_pos {
                self.read_pos = 0;
            } else {
                self.read_pos = self.read_pos - back;
            }
        }
    }

    /// Whether every byte has been read.
    pub fn is_end(&self) -> (b: bool)
        ensures
            b == (self.pos() >= self.data().len()),
    {
        self.read_pos >= self.data_ref.get_size()
    }

    /// Reads a big-endian 16-bit value and moves behind it. Without two
    /// bytes left the reader stays where it is.
    pub fn read_u16be(&mut self) -> (r: Result<u16, JpegError>)
        ensures
            final(self).data() == old(self).data(),
            old(self).pos() + 1 < old(self).data().len() ==> r == Ok::<u16, JpegError>(
                (old(self).data()[old(self).pos()] as int * 256 + old(self).data()[old(self).pos()
                    + 1] as int) as u16,
            ) && final(self).pos() == old(self).pos() + 2,
            old(self).pos() + 1 >= old(self).data().len() ==> r == Err::<u16, JpegError>(
                JpegError::TruncatedInput,
            ) && final(self).pos() == old(self).pos(),
    {
        proof {
            self.data_ref.lemma_size_bounded();
        }
        match self.data_ref.read_u16be(self.read_pos) {
            Some(v) => {
                self.read_pos = self.read_pos + 2;
                Ok(v)
            },
            None => Err(JpegError::TruncatedInput),
        }
    }

    /// Reads one byte and moves behind it. At the end of the input the
    /// reader stays where it is.
    pub fn read_u8(&mut self) -> (r: Result<u8, JpegError>)
        ensures
            final(self).data() == old(self).data(),
            old(self).pos() < old(self).data().len() ==> r == Ok::<u8, JpegError>(
                old(self).data()[old(self).pos()],
            ) && final(self).pos() == old(self).pos() + 1,
            old(self).pos() >= old(self).data().len() ==> r == Err::<u8, JpegError>(
                JpegError::TruncatedInput,
            ) && final(self).pos() == old(self).pos(),
    {
        proof {
            self.data_ref.lemma_size_bounded();
        }
        match self.data_ref.read_u8(self.read_pos) {
            Some(v) => {
                self.read_pos = self.read_pos + 1;
                Ok(v)
            },
            None => Err(JpegError::TruncatedInput),
        }
    }
}

impl<'a> JpegBitStreamReader<'a> {
    /// The bytes that the reader walks.
    pub closed spec fn data(&self) -> Seq<u8> {
        self.data_ref@
    }

    /// The byte position of the cursor.
    pub closed spec fn pos(&self) -> int {
        self.read_pos as int
    }

    /// The bit position of the cursor inside its byte.
    pub closed spec fn bit(&self) -> int {
        self.read_bitpos as int
    }

    /// The bit position lies inside a byte.
    pub open spec fn wf(&self) -> bool {
        0 <= self.bit() < 8
    }

    /// A reader at the first bit of `data`.
    pub fn new(data: &'a JpegRawData) -> (r: Self)
        ensures
            r.wf(),
            r.data() == data@,
            r.pos() == 0,
            r.bit() == 0,
    {
        JpegBitStreamReader { data_ref: data, read_pos: 0, read_bitpos: 0 }
    }

    /// A second reader over the same bytes at the same cursor.
    pub fn copy(&self) -> (r: Self)
        ensures
            r.data() == self.data(),
            r.pos() == self.pos(),
            r.bit() == self.bit(),
    {
        JpegBitStreamReader {
            data_ref: self.data_ref,
            read_pos: self.read_pos,
            read_bitpos: self.read_bitpos,
        }
    }

    /// The byte position of the cursor.
    pub fn get_pos(&self) -> (p: usize)
        ensures
            p == self.pos(),
    {
        self.read_pos
    }

    /// Places the cursor at bit `bitpos` of byte `pos`.
    pub fn set_pos(&mut self, pos: usize, bitpos: usize)
        requires
            bitpos < 8,
        ensures
            final(self).wf(),
            final(self).data() == old(self).data(),
            final(self).pos() == pos,
            final(self).bit() == bitpos,
    {
        self.read_pos = pos;
        self.read_bitpos = bitpos;
    }

    /// Whether the cursor stands behind the last byte.
    pub fn is_end(&self) -> (b: bool)
        ensures
            b == (self.pos() >= self.data().len()),
    {
        self.read_pos >= self.data_ref.get_size()
    }

    /// The entropy byte at `pos` and the position of the one after it, or
    /// nothing where the entropy-coded data ends.
    fn entropy_byte_at(&self, pos: usize) -> (r: Option<(u8, usize)>)
        ensures
            match r {
                Some((b, next)) => is_entropy_byte(self.data(), pos as int) && b == self.data()[pos as int]
                    && next == next_entropy_pos(self.data(), pos as int),
                None => !is_entropy_byte(self.data(), pos as int),
            },
    {
        proof {
            self.data_ref.lemma_size_bounded();
        }
        match self.data_ref.read_u8(pos) {
            None => None,
            Some(b) => {
                if b != 0xFF {
                    Some((b, pos + 1))
                } else {
                    match self.data_ref.read_u8(pos + 1) {
                        Some(z) => if z == 0x00 {
                            Some((b, pos + 2))
                        } else {
                            None
                        },
                        None => None,
                    }
                }
            },
        }
    }

    /// Returns the next 16 bits at the cursor without moving it, with the
    /// stuffing removed. Bits behind the end of the entropy-coded data read
    /// as zero.
    pub fn read_bits16(&self) -> (w: u16)
        requires
            self.wf(),
        ensures
            w == peek16(self.data(), self.pos(), self.bit()),
    {
        let ghost data = self.data();
        let mut b0: u32 = 0;
        let mut b1: u32 = 0;
        let mut b2: u32 = 0;
        match self.entropy_byte_at(self.read_pos) {
            None => {},
            Some((v0, p1)) => {
                b0 = v0 as u32;
                proof {
                    lemma_stream_byte_next(data, p1 as int, 0);
                }
                match self.entropy_byte_at(p1) {
                    None => {},
                    Some((v1, p2)) => {
                        b1 = v1 as u32;
                        match self.entropy_byte_at(p2) {
                            None => {},
                            Some((v2, _)) => {
                                b2 = v2 as u32;
                            },
                        }
                    },
                }
            },
        }
        let window: u32 = b0 * 65536 + b1 * 256 + b2;
        let shift: u32 = 8 - self.read_bitpos as u32;
        let shifted: u32 = window >> shift;
        let w: u32 = shifted % 65536;
        proof {
            lemma_u32_shr_is_div(window, shift);
        }
        w as u16
    }

    /// Advances the cursor by `offset_bits` bits of entropy-coded data and
    /// skips every stuffed zero it crosses. Without that many bits left
    /// before the next marker or the end of the input, the cursor stays
    /// where it is.
    pub fn move_bitpos(&mut self, offset_bits: usize) -> (r: Result<(), JpegError>)
        requires
            old(self).wf(),
        ensures
            final(self).wf(),
            final(self).data() == old(self).data(),
            match advance(old(self).data(), old(self).pos(), old(self).bit(), offset_bits as int) {
                Some(c) => {
                    &&& r == Ok::<(), JpegError>(())
                    &&& final(self).pos() == c.0
                    &&& final(self).bit() == c.1
                },
                None => r == Err::<(), JpegError>(JpegError::TruncatedInput) && final(self).pos()
                    == old(self).pos() && final(self).bit() == old(self).bit(),
            },
    {
        let ghost data = self.data();
        let ghost start_pos = self.pos();
        let ghost start_bit = self.bit();
        let total_bits: usize = self.read_bitpos + offset_bits % 8;
        let new_bit: usize = total_bits % 8;
        let count: usize = offset_bits / 8 + total_bits / 8;
        let mut steps: usize = count;
        let mut p: usize = self.read_pos;
        while steps > 0
            invariant
                self.wf(),
                data == self.data(),
                start_pos == self.pos(),
                start_bit == self.bit(),
                count == (start_bit + offset_bits) / 8,
                skip_entropy_bytes(data, p as int, steps as int) == skip_entropy_bytes(
                    data,
                    start_pos,
                    count as int,
                ),
            decreases steps,
        {
            match self.entropy_byte_at(p) {
                Some((_, next)) => {
                    p = next;
                    steps = steps - 1;
                },
                None => {
                    return Err(JpegError::TruncatedInput);
                },
            }
        }
        if new_bit != 0 {
            match self.entropy_byte_at(p) {
                Some(_) => {},
                None => {
                    return Err(JpegError::TruncatedInput);
                },
            }
        }
        self.read_pos = p;
        self.read_bitpos = new_bit;
        Ok(())
    }

    /// Looks for a marker at the next byte boundary. If one stands there
    /// (0xFF and a byte other than zero), the cursor moves behind its two
    /// bytes and the result is true; otherwise the cursor stays.
    pub fn check_marker(&mut self) -> (found: bool)
        requires
            old(self).wf(),
        ensures
            final(self).wf(),
            final(self).data() == old(self).data(),
            found == marker_at(old(self).data(), aligned_pos(old(self).pos(), old(self).bit())),
            found ==> final(self).pos() == aligned_pos(old(self).pos(), old(self).bit()) + 2
                && final(self).bit() == 0,
            !found ==> final(self).pos() == old(self).pos() && final(self).bit() == old(self).bit(),
    {
        if self.read_pos >= self.data_ref.get_size() {
            return false;
        }
        let start: usize = if self.read_bitpos == 0 {
            self.read_pos
        } else {
            self.read_pos + 1
        };
        match self.data_ref.read_u16be(start) {
            Some(m) => {
                if m >= 0xFF00 && m != 0xFF00 {
                    self.read_pos = start + 2;
                    self.read_bitpos = 0;
                    true
                } else {
                    false
                }
            },
            None => false,
        }
    }
}

/// The first byte boundary at or behind the cursor (`pos`, `bit`).
pub open spec fn aligned_pos(pos: int, bit: int) -> int {
    if bit == 0 {
        pos
    } else {
        pos + 1
    }
}

/// Whether a marker stands at `pos`: 0xFF and a byte other than zero.
pub open spec fn marker_at(data: Seq<u8>, pos: int) -> bool {
    &&& 0 <= pos
    &&& pos + 1 < data.len()
    &&& data[pos] == 0xFF
    &&& data[pos + 1] != 0x00
}

} // verus!
