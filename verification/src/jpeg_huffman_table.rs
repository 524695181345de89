//! Huffman tables and the decoding of DC and AC symbols.
//!
//! A table is given by the number of codes of each length from 1 to 16 and
//! by the symbols in the order of their codes. The codes are the canonical
//! ones: kept left-aligned in 16 bits, the first code is zero and every
//! further code is the one before it plus the span of that code, which is
//! `2^(16 - length)`. A code matches a 16-bit window exactly when the window
//! lies in the code's span, that is when the code is a prefix of the window.

use vstd::prelude::*;
use vstd::arithmetic::power2::lemma2_to64;
use vstd::arithmetic::power2::lemma_pow2_pos;
use vstd::arithmetic::power2::pow2;
use vstd::bits::lemma_u16_shr_is_div;
use crate::jpeg_constants::JPEG_NUM_TABLES;
use crate::jpeg_error::JpegError;
use crate::jpeg_raw_data::advance;
use crate::jpeg_raw_data::JpegBitStreamReader;
use crate::jpeg_raw_data::JpegReader;
use crate::jpeg_raw_data::peek16;
use crate::jpeg_sample_block::JpegMinimumCodedUnit;
use crate::jpeg_sample_block::mcu_coefficients_at;
use crate::jpeg_sample_block::ScanState;

verus! {

/// Number of code lengths of a table.
pub const JPEG_NUM_DHT_TREE_BITS: usize = 16;

/// The mathematical content of a Huffman table.
pub struct HuffmanCode {
    /// Number of codes of each length: entry `k` counts the codes of
    /// `k + 1` bits.
    pub counts: Seq<u8>,
    /// The symbols in the order of their codes.
    pub symbols: Seq<u8>,
}

/// Number of codes of the first `k` lengths.
pub open spec fn count_sum(counts: Seq<u8>, k: int) -> int
    decreases k,
{
    if k <= 0 {
        0
    } else {
        count_sum(counts, k - 1) + counts[k - 1] as int
    }
}

/// The lengths of the codes of the first `k` lengths, in code order.
pub open spec fn code_lengths_upto(counts: Seq<u8>, k: int) -> Seq<int>
    decreases k,
{
    if k <= 0 {
        Seq::empty()
    } else {
        code_lengths_upto(counts, k - 1) + Seq::new(counts[k - 1] as nat, |j: int| k)
    }
}

/// The part of the 16-bit code space that a code of `len` bits covers.
pub open spec fn code_span(len: int) -> int {
    pow2((16 - len) as nat) as int
}

/// The left-aligned value of code `i`: the spans of the codes before it,
/// added up.
pub open spec fn code_value(lengths: Seq<int>, i: int) -> int
    decreases i,
{
    if i <= 0 {
        0
    } else {
        code_value(lengths, i - 1) + code_span(lengths[i - 1])
    }
}

/// The first code at or behind `i` whose span ends behind `w`.
pub open spec fn find_code(lengths: Seq<int>, w: int, i: int) -> Option<int>
    decreases lengths.len() - i,
{
    if i < 0 || i >= lengths.len() {
        None
    } else if w < code_value(lengths, i + 1) {
        Some(i)
    } else {
        find_code(lengths, w, i + 1)
    }
}

/// The value encoded by the `ssss` amplitude bits at the head of the 16-bit
/// window `w`: the bits themselves when the first of them is set, and else
/// the bits minus `2^ssss - 1`. No bits encode zero.
pub open spec fn amplitude_value(ssss: int, w: int) -> int {
    if ssss <= 0 {
        0
    } else if w >= 32768 {
        w / code_span(ssss)
    } else {
        w / code_span(ssss) - (pow2(ssss as nat) - 1)
    }
}

impl HuffmanCode {
    /// The lengths of all codes, in code order.
    pub open spec fn lengths(self) -> Seq<int> {
        code_lengths_upto(self.counts, 16)
    }

    /// The left-aligned 16-bit value of code `i`.
    pub open spec fn value(self, i: int) -> int {
        code_value(self.lengths(), i)
    }

    /// There is one symbol for each code, and the codes fit in 16 bits.
    pub open spec fn valid(self) -> bool {
        &&& self.counts.len() == 16
        &&& self.symbols.len() == count_sum(self.counts, 16)
        &&& code_value(self.lengths(), self.symbols.len() as int) <= 65536
    }

    /// Whether code `i` is a prefix of the 16-bit window `w`.
    pub open spec fn is_prefix(self, i: int, w: int) -> bool {
        &&& 0 <= i < self.symbols.len()
        &&& w / code_span(self.lengths()[i]) == self.value(i) / code_span(self.lengths()[i])
    }

    /// The index of the code that the 16-bit window `w` starts with, if
    /// there is one.
    pub open spec fn code_index(self, w: int) -> Option<int> {
        find_code(self.lengths(), w, 0)
    }
}

/// The cursor and the symbol read at (`pos`, `bit`): the symbol of the code
/// that the next 16 bits start with, and the cursor behind that code.
pub open spec fn read_symbol(code: HuffmanCode, data: Seq<u8>, pos: int, bit: int) -> Result<
    (u8, (int, int)),
    JpegError,
> {
    match code.code_index(peek16(data, pos, bit)) {
        None => Err(JpegError::BadHuffmanSymbol),
        Some(i) => match advance(data, pos, bit, code.lengths()[i]) {
            None => Err(JpegError::TruncatedInput),
            Some(c) => Ok((code.symbols[i], c)),
        },
    }
}

/// The amplitude of `ssss` bits read at (`pos`, `bit`) and the cursor
/// behind it.
pub open spec fn read_amplitude(data: Seq<u8>, pos: int, bit: int, ssss: int) -> Result<
    (int, (int, int)),
    JpegError,
> {
    if ssss <= 0 {
        Ok((0, (pos, bit)))
    } else {
        match advance(data, pos, bit, ssss) {
            None => Err(JpegError::TruncatedInput),
            Some(c) => Ok((amplitude_value(ssss, peek16(data, pos, bit)), c)),
        }
    }
}

/// One DC difference read at (`pos`, `bit`): a symbol whose low four bits
/// give the number of amplitude bits that follow it.
pub open spec fn decode_dc_at(code: HuffmanCode, data: Seq<u8>, pos: int, bit: int) -> Result<
    (int, (int, int)),
    JpegError,
> {
    match read_symbol(code, data, pos, bit) {
        Err(e) => Err(e),
        Ok((s, c)) => read_amplitude(data, c.0, c.1, s as int % 16),
    }
}

/// One AC symbol read at (`pos`, `bit`). Symbol zero ends the block and
/// gives `None`. Any other symbol gives a run of zeros, its high four bits,
/// and the value behind the run, read from as many amplitude bits as the
/// low four bits say.
pub open spec fn decode_ac_at(code: HuffmanCode, data: Seq<u8>, pos: int, bit: int) -> Result<
    (Option<(int, int)>, (int, int)),
    JpegError,
> {
    match read_symbol(code, data, pos, bit) {
        Err(e) => Err(e),
        Ok((s, c)) => if s == 0 {
            Ok((None, c))
        } else {
            match read_amplitude(data, c.0, c.1, s as int % 16) {
                Err(e) => Err(e),
                Ok((v, c2)) => Ok((Some((v, s as int / 16)), c2)),
            }
        },
    }
}

/// The counts and symbols of one table definition at `pos`, and the
/// position behind it: sixteen counts, then one symbol for each code.
pub open spec fn table_definition_at(data: Seq<u8>, pos: int) -> Result<
    (HuffmanCode, int),
    JpegError,
> {
    if pos < 0 || pos + 16 > data.len() {
        Err(JpegError::TruncatedInput)
    } else {
        let counts = data.subrange(pos, pos + 16);
        let total = count_sum(counts, 16);
        if pos + 16 + total > data.len() {
            Err(JpegError::TruncatedInput)
        } else {
            let code = HuffmanCode { counts, symbols: data.subrange(pos + 16, pos + 16 + total) };
            if code.valid() {
                Ok((code, pos + 16 + total))
            } else {
                Err(JpegError::LogicError)
            }
        }
    }
}

/// The lengths of the first `k` lengths are as many as their counts say.
pub proof fn lemma_code_lengths_len(counts: Seq<u8>, k: int)
    requires
        0 <= k,
    ensures
        code_lengths_upto(counts, k).len() == count_sum(counts, k),
        count_sum(counts, k) >= 0,
    decreases k,
{
    if k > 0 {
        lemma_code_lengths_len(counts, k - 1);
    }
}

/// Every code has between 1 and 16 bits, and no code is shorter than a
/// code before it.
pub proof fn lemma_code_lengths_sorted(counts: Seq<u8>, k: int)
    requires
        0 <= k,
    ensures
        forall|i: int|
            0 <= i < code_lengths_upto(counts, k).len() ==> 1 <= #[trigger] code_lengths_upto(
                counts,
                k,
            )[i] <= k,
        forall|i: int, j: int|
            0 <= i <= j < code_lengths_upto(counts, k).len() ==> code_lengths_upto(counts, k)[i]
                <= code_lengths_upto(counts, k)[j],
    decreases k,
{
    if k > 0 {
        lemma_code_lengths_sorted(counts, k - 1);
        lemma_code_lengths_len(counts, k - 1);
        let before = code_lengths_upto(counts, k - 1);
        let all = code_lengths_upto(counts, k);
        assert forall|i: int| 0 <= i < all.len() implies 1 <= #[trigger] all[i] <= k by {
            if i < before.len() {
                assert(all[i] == before[i]);
            }
        }
        assert forall|i: int, j: int| 0 <= i <= j < all.len() implies all[i] <= all[j] by {
            if j < before.len() {
                assert(all[i] == before[i]);
                assert(all[j] == before[j]);
            } else if i < before.len() {
                assert(all[i] == before[i]);
                assert(1 <= before[i] <= k - 1);
            }
        }
    }
}

/// The lengths of the first `k` lengths open the list of all lengths.
pub proof fn lemma_code_lengths_prefix(counts: Seq<u8>, k: int, m: int)
    requires
        0 <= k <= m,
    ensures
        code_lengths_upto(counts, k).len() <= code_lengths_upto(counts, m).len(),
        forall|i: int|
            0 <= i < code_lengths_upto(counts, k).len() ==> code_lengths_upto(counts, k)[i]
                == code_lengths_upto(counts, m)[i],
    decreases m - k,
{
    if k < m {
        lemma_code_lengths_prefix(counts, k, m - 1);
    }
}

/// The span of a code of 1 to 16 bits, in numbers.
pub proof fn lemma_code_span_values()
    ensures
        code_span(1) == 32768,
        code_span(2) == 16384,
        code_span(3) == 8192,
        code_span(4) == 4096,
        code_span(5) == 2048,
        code_span(6) == 1024,
        code_span(7) == 512,
        code_span(8) == 256,
        code_span(9) == 128,
        code_span(10) == 64,
        code_span(11) == 32,
        code_span(12) == 16,
        code_span(13) == 8,
        code_span(14) == 4,
        code_span(15) == 2,
        code_span(16) == 1,
        forall|len: int| code_span(len) > 0,
{
    lemma2_to64();
    assert forall|len: int| code_span(len) > 0 by {
        lemma_pow2_pos((16 - len) as nat);
    }
}

/// Code values grow with the index.
pub proof fn lemma_code_value_monotonic(lengths: Seq<int>, i: int, j: int)
    requires
        0 <= i <= j,
    ensures
        code_value(lengths, i) <= code_value(lengths, j),
        i < j ==> code_value(lengths, i + 1) <= code_value(lengths, j),
        0 <= code_value(lengths, i),
    decreases j,
{
    if i < j {
        lemma_code_value_monotonic(lengths, i, j - 1);
    } else {
        lemma_code_value_nonnegative(lengths, i);
    }
}

proof fn lemma_code_value_nonnegative(lengths: Seq<int>, i: int)
    ensures
        0 <= code_value(lengths, i),
    decreases i,
{
    if i > 0 {
        lemma_code_value_nonnegative(lengths, i - 1);
    }
}

/// Where no code is shorter than a code before it, the value of a code is
/// a multiple of its span: its low `16 - length` bits are zero.
pub proof fn lemma_code_value_aligned(lengths: Seq<int>, i: int)
    requires
        0 <= i < lengths.len(),
        forall|j: int| 0 <= j < lengths.len() ==> 1 <= #[trigger] lengths[j] <= 16,
        forall|j: int, k: int| 0 <= j <= k < lengths.len() ==> lengths[j] <= lengths[k],
    ensures
        code_value(lengths, i) % code_span(lengths[i]) == 0,
{
    lemma_code_value_multiple(lengths, i, lengths[i]);
}

proof fn lemma_code_value_multiple(lengths: Seq<int>, i: int, len: int)
    requires
        0 <= i <= lengths.len(),
        1 <= len <= 16,
        forall|j: int| 0 <= j < i ==> 1 <= #[trigger] lengths[j] <= len,
    ensures
        code_value(lengths, i) % code_span(len) == 0,
    decreases i,
{
    lemma_code_span_values();
    if i > 0 {
        lemma_code_value_multiple(lengths, i - 1, len);
        lemma_span_divides(lengths[i - 1], len);
        lemma_multiple_sum(code_value(lengths, i - 1), code_span(lengths[i - 1]), code_span(len));
    } else {
        vstd::arithmetic::div_mod::lemma_small_mod(0, code_span(len) as nat);
    }
}

/// The sum of two multiples of `d` is a multiple of `d`.
proof fn lemma_multiple_sum(a: int, b: int, d: int)
    requires
        a % d == 0,
        b % d == 0,
        d > 0,
    ensures
        (a + b) % d == 0,
{
    vstd::arithmetic::div_mod::lemma_add_mod_noop(a, b, d);
    vstd::arithmetic::div_mod::lemma_small_mod(0, d as nat);
}

/// The span of a shorter code is a multiple of the span of a longer one.
proof fn lemma_span_divides(short: int, long: int)
    requires
        1 <= short <= long <= 16,
    ensures
        code_span(short) % code_span(long) == 0,
    decreases long - short,
{
    lemma_code_span_values();
    if short < long {
        lemma_span_divides(short + 1, long);
        lemma_multiple_sum(code_span(short + 1), code_span(short + 1), code_span(long));
    } else {
        vstd::arithmetic::div_mod::lemma_mod_self_0(code_span(long));
    }
}

/// The bits of code `i` as a number: the value of the code without the
/// zeros that align it to the left.
pub open spec fn code_bits(lengths: Seq<int>, i: int) -> int {
    code_value(lengths, i) / code_span(lengths[i])
}

/// The codes are the canonical ones: the first code is zero, and each
/// further code is the code before it plus one, with as many zeros
/// appended as its length is greater.
pub proof fn lemma_code_is_canonical(lengths: Seq<int>, i: int)
    requires
        0 <= i,
        i + 1 < lengths.len(),
        forall|j: int| 0 <= j < lengths.len() ==> 1 <= #[trigger] lengths[j] <= 16,
        forall|j: int, k: int| 0 <= j <= k < lengths.len() ==> lengths[j] <= lengths[k],
    ensures
        code_bits(lengths, 0) == 0,
        code_bits(lengths, i + 1) == (code_bits(lengths, i) + 1) * pow2(
            (lengths[i + 1] - lengths[i]) as nat,
        ),
{
    lemma_code_span_values();
    let d0 = code_span(lengths[0]);
    assert(0int / d0 == 0) by (nonlinear_arith)
        requires
            d0 > 0,
    ;
    let v = code_value(lengths, i);
    let d = code_span(lengths[i]);
    let e = code_span(lengths[i + 1]);
    let grow = pow2((lengths[i + 1] - lengths[i]) as nat) as int;
    lemma_code_value_aligned(lengths, i);
    vstd::arithmetic::power2::lemma_pow2_adds(
        (lengths[i + 1] - lengths[i]) as nat,
        (16 - lengths[i + 1]) as nat,
    );
    let c = v / d;
    assert(v == c * d) by (nonlinear_arith)
        requires
            v % d == 0,
            d > 0,
            c == v / d,
    ;
    assert((v + d) / e == (c + 1) * grow) by (nonlinear_arith)
        requires
            v == c * d,
            d == grow * e,
            e > 0,
    ;
}

/// The search from `i` finds code `k` when `w` lies in the span of `k` and
/// `k` is not before `i`.
proof fn lemma_find_code_in_span(lengths: Seq<int>, w: int, i: int, k: int)
    requires
        0 <= i <= k < lengths.len(),
        code_value(lengths, k) <= w < code_value(lengths, k + 1),
    ensures
        find_code(lengths, w, i) == Some(k),
    decreases k - i,
{
    if i < k {
        lemma_find_code_in_span(lengths, w, i + 1, k);
    }
}

/// What the search finds is a code in whose span `w` lies.
proof fn lemma_find_code_sound(lengths: Seq<int>, w: int, i: int)
    requires
        0 <= i,
        code_value(lengths, i) <= w,
    ensures
        match find_code(lengths, w, i) {
            Some(k) => i <= k < lengths.len() && code_value(lengths, k) <= w < code_value(
                lengths,
                k + 1,
            ),
            None => code_value(lengths, lengths.len() as int) <= w || i > lengths.len(),
        },
    decreases lengths.len() - i,
{
    if i < lengths.len() && w >= code_value(lengths, i + 1) {
        lemma_find_code_sound(lengths, w, i + 1);
    }
}

/// A code is a prefix of `w` exactly when `w` lies in the span of the
/// code.
pub proof fn lemma_prefix_is_span(code: HuffmanCode, i: int, w: int)
    requires
        code.valid(),
        0 <= i < code.symbols.len(),
        0 <= w < 65536,
    ensures
        code.is_prefix(i, w) <==> code.value(i) <= w < code.value(i + 1),
        1 <= code.lengths()[i] <= 16,
{
    let lengths = code.lengths();
    lemma_code_lengths_len(code.counts, 16);
    lemma_code_lengths_sorted(code.counts, 16);
    lemma_code_value_aligned(lengths, i);
    lemma_code_span_values();
    let v = code.value(i);
    let d = code_span(lengths[i]);
    lemma_code_value_nonnegative(lengths, i);
    assert((w / d == v / d) <==> (v <= w < v + d)) by (nonlinear_arith)
        requires
            v % d == 0,
            d > 0,
            v >= 0,
            w >= 0,
    ;
}

/// Prefix freedom: a window that starts with the bit pattern of code `i`
/// decodes to code `i` and to no other, whatever bits follow the pattern.
pub proof fn lemma_prefix_decodes(code: HuffmanCode, i: int, w: int)
    requires
        code.valid(),
        0 <= w < 65536,
        code.is_prefix(i, w),
    ensures
        code.code_index(w) == Some(i),
{
    lemma_prefix_is_span(code, i, w);
    lemma_code_lengths_len(code.counts, 16);
    lemma_find_code_in_span(code.lengths(), w, 0, i);
}

/// A decoded code is a prefix of the window, and a window that decodes to
/// nothing starts with no code.
pub proof fn lemma_decoded_is_prefix(code: HuffmanCode, w: int)
    requires
        code.valid(),
        0 <= w < 65536,
    ensures
        match code.code_index(w) {
            Some(i) => code.is_prefix(i, w),
            None => forall|i: int| !code.is_prefix(i, w),
        },
{
    let lengths = code.lengths();
    lemma_code_lengths_len(code.counts, 16);
    lemma_find_code_sound(lengths, w, 0);
    match code.code_index(w) {
        Some(i) => {
            lemma_prefix_is_span(code, i, w);
        },
        None => {
            assert forall|i: int| !code.is_prefix(i, w) by {
                if code.is_prefix(i, w) {
                    lemma_prefix_decodes(code, i, w);
                }
            }
        },
    }
}

/// A decoded symbol decodes again from its own bit pattern: a window that
/// shares the bits of the code that `w` starts with decodes to the same
/// code, whatever follows those bits.
pub proof fn lemma_decoding_depends_on_code_bits(code: HuffmanCode, w: int, other: int)
    requires
        code.valid(),
        0 <= w < 65536,
        0 <= other < 65536,
        code.code_index(w) matches Some(i) && other / code_span(code.lengths()[i]) == w / code_span(
            code.lengths()[i],
        ),
    ensures
        code.code_index(other) == code.code_index(w),
{
    lemma_decoded_is_prefix(code, w);
    lemma_prefix_decodes(code, code.code_index(w)->Some_0, other);
}

/// The content of a table without codes: every count is zero and there is
/// no symbol.
pub open spec fn empty_code() -> HuffmanCode {
    HuffmanCode { counts: Seq::new(16, |i: int| 0u8), symbols: Seq::empty() }
}

/// One Huffman table together with the code of each symbol.
pub struct JpegHuffmanTable {
    tree: [u8; JPEG_NUM_DHT_TREE_BITS],
    encoding: Vec<u8>,
    bit_pattern: Vec<u16>,
    bit_length: Vec<u8>,
    limit: u32,
    table_id: u8,
}

/// The DC and AC Huffman tables of a decoder, by table id.
pub struct JpegDhtManager {
    dc: [JpegHuffmanTable; JPEG_NUM_TABLES],
    ac: [JpegHuffmanTable; JPEG_NUM_TABLES],
}

impl View for JpegHuffmanTable {
    type V = HuffmanCode;

    closed spec fn view(&self) -> HuffmanCode {
        HuffmanCode { counts: self.tree@, symbols: self.encoding@ }
    }
}

impl JpegHuffmanTable {
    /// The table is valid, and the stored code of each symbol is its
    /// canonical code.
    pub closed spec fn wf(&self) -> bool {
        &&& self@.valid()
        &&& self.bit_pattern@.len() == self.encoding@.len()
        &&& self.bit_length@.len() == self.encoding@.len()
        &&& forall|i: int|
            0 <= i < self.encoding@.len() ==> self.bit_length@[i] as int == #[trigger] self@.lengths()[i]
        &&& forall|i: int|
            0 <= i < self.encoding@.len() ==> #[trigger] self.bit_pattern@[i] as int == self@.value(i)
        &&& self.limit as int == self@.value(self.encoding@.len() as int)
    }

    /// The content of a well-formed table is valid: it has sixteen counts,
    /// one symbol for each code, and codes that fit in 16 bits.
    pub proof fn lemma_view_valid(&self)
        requires
            self.wf(),
        ensures
            self@.valid(),
    {
    }

    /// The byte that named the table when it was defined: its class in the
    /// high four bits, its id in the low four.
    pub closed spec fn id(&self) -> u8 {
        self.table_id
    }

    /// A table without codes.
    pub fn new() -> (t: Self)
        ensures
            t.wf(),
            t@ == empty_code(),
            t.id() == 0,
    {
        let t = JpegHuffmanTable {
            tree: [0;16],
            encoding: Vec::new(),
            bit_pattern: Vec::new(),
            bit_length: Vec::new(),
            limit: 0,
            table_id: 0,
        };
        proof {
            lemma_zero_counts(t@.counts, 16);
            assert(t@.counts =~= empty_code().counts);
            assert(t@.symbols =~= empty_code().symbols);
        }
        t
    }

    /// The byte that named the table when it was defined.
    pub fn get_table_id(&self) -> (id: u8)
        ensures
            id == self.id(),
    {
        self.table_id
    }

    /// Number of codes of `len_index + 1` bits, if that is a length of
    /// 1 to 16 bits.
    pub fn get_count(&self, len_index: usize) -> (n: Option<u8>)
        ensures
            n == if len_index < 16 {
                Some(self@.counts[len_index as int])
            } else {
                None
            },
    {
        if len_index < 16 {
            Some(self.tree[len_index])
        } else {
            None
        }
    }

    /// Number of codes of the table.
    pub fn get_num_codes(&self) -> (n: usize)
        ensures
            n == self@.symbols.len(),
    {
        self.encoding.len()
    }

    /// Code `i` of the table, if there is one: its symbol, its 16-bit
    /// left-aligned value and its length in bits.
    pub fn get_code(&self, i: usize) -> (c: Option<(u8, u16, u8)>)
        requires
            self.wf(),
        ensures
            match c {
                Some((symbol, value, len)) => i < self@.symbols.len() && symbol == self@.symbols[i as int]
                    && value == self@.value(i as int) && len == self@.lengths()[i as int],
                None => i >= self@.symbols.len(),
            },
    {
        if i < self.encoding.len() {
            Some((self.encoding[i], self.bit_pattern[i], self.bit_length[i]))
        } else {
            None
        }
    }

    /// Reads one table definition at the reader: sixteen counts, then one
    /// symbol for each code. On failure the table stays as it was.
    pub fn parse_segment(&mut self, table_id: u8, reader: &mut JpegReader) -> (r: Result<
        (),
        JpegError,
    >)
        requires
            old(self).wf(),
        ensures
            final(self).wf(),
            final(reader).data() == old(reader).data(),
            match table_definition_at(old(reader).data(), old(reader).pos()) {
                Ok((code, next)) => {
                    &&& r == Ok::<(), JpegError>(())
                    &&& final(self)@ == code
                    &&& final(self).id() == table_id
                    &&& final(reader).pos() == next
                },
                Err(e) => r == Err::<(), JpegError>(e) && *final(self) == *old(self),
            },
    {
        let ghost data = reader.data();
        let ghost start = reader.pos();
        proof {
            reader.lemma_pos_bounds();
        }
        let mut t = JpegHuffmanTable::new();
        t.table_id = table_id;
        let mut total: usize = 0;
        let mut i: usize = 0;
        while i < 16
            invariant
                0 <= i <= 16,
                reader.data() == data,
                reader.pos() == start + i,
                i == 0 || start + i <= data.len(),
                *self == *old(self),
                self.wf(),
                data == old(reader).data(),
                start == old(reader).pos(),
                0 <= start,
                forall|k: int| 0 <= k < i ==> t.tree@[k] == data[start + k],
                total == count_sum(t.tree@, i as int),
                total <= 255 * i,
                t.encoding@.len() == 0,
                t.table_id == table_id,
            decreases 16 - i,
        {
            let ghost before = t.tree@;
            match reader.read_u8() {
                Ok(b) => {
                    t.tree[i] = b;
                    proof {
                        lemma_count_sum_prefix(before, t.tree@, i as int);
                    }
                    total = total + b as usize;
                },
                Err(e) => {
                    return Err(e);
                },
            }
            i = i + 1;
        }
        let mut j: usize = 0;
        while j < total
            invariant
                0 <= j <= total,
                total == count_sum(t.tree@, 16),
                t.tree@ == data.subrange(start as int, start + 16),
                reader.data() == data,
                reader.pos() == start + 16 + j,
                start + 16 + j <= data.len(),
                *self == *old(self),
                self.wf(),
                data == old(reader).data(),
                start == old(reader).pos(),
                0 <= start,
                t.encoding@.len() == j,
                forall|k: int| 0 <= k < j ==> t.encoding@[k] == data[start + 16 + k],
                t.table_id == table_id,
            decreases total - j,
        {
            match reader.read_u8() {
                Ok(b) => {
                    t.encoding.push(b);
                },
                Err(e) => {
                    return Err(e);
                },
            }
            j = j + 1;
        }
        proof {
            assert(t.encoding@ =~= data.subrange(start + 16, start + 16 + total));
        }
        match t.create_bit_pattern() {
            Ok(()) => {
                *self = t;
                Ok(())
            },
            Err(e) => Err(e),
        }
    }

    /// Derives the code and the length of every symbol from the counts.
    /// Fails when the codes do not fit in 16 bits.
    fn create_bit_pattern(&mut self) -> (r: Result<(), JpegError>)
        requires
            old(self)@.symbols.len() == count_sum(old(self)@.counts, 16),
        ensures
            final(self)@ == old(self)@,
            final(self).id() == old(self).id(),
            old(self)@.valid() ==> r == Ok::<(), JpegError>(()) && final(self).wf(),
            !old(self)@.valid() ==> r == Err::<(), JpegError>(JpegError::LogicError),
    {
        let ghost code = self@;
        let ghost full = code.lengths();
        let mut patterns: Vec<u16> = Vec::new();
        let mut lengths: Vec<u8> = Vec::new();
        let mut pat: u32 = 0;
        let mut base: u32 = 0x8000;
        let mut i: usize = 0;
        proof {
            lemma_code_span_values();
            lemma_code_lengths_len(code.counts, 16);
        }
        while i < 16
            invariant
                0 <= i <= 16,
                self@ == code,
                full == code.lengths(),
                code.counts.len() == 16,
                full.len() == count_sum(code.counts, 16),
                self.table_id == old(self).table_id,
                patterns@.len() == count_sum(code.counts, i as int),
                lengths@.len() == patterns@.len(),
                patterns@.len() <= full.len(),
                forall|t: int| 0 <= t < lengths@.len() ==> lengths@[t] as int == #[trigger] full[t],
                forall|t: int|
                    0 <= t < patterns@.len() ==> #[trigger] patterns@[t] as int == code_value(full, t),
                pat as int == code_value(full, patterns@.len() as int),
                pat <= 65536,
                i < 16 ==> base as int == code_span(i + 1),
            decreases 16 - i,
        {
            let count: u8 = self.tree[i];
            let mut j: u8 = 0;
            proof {
                lemma_code_span_values();
                lemma_code_lengths_prefix(code.counts, (i + 1) as int, 16);
                lemma_code_lengths_len(code.counts, i as int);
            }
            while j < count
                invariant
                    0 <= j <= count,
                    0 <= i < 16,
                    count == code.counts[i as int],
                    self@ == code,
                    full == code.lengths(),
                    code.counts.len() == 16,
                    full.len() == count_sum(code.counts, 16),
                    self.table_id == old(self).table_id,
                    patterns@.len() == count_sum(code.counts, i as int) + j,
                    lengths@.len() == patterns@.len(),
                    count_sum(code.counts, i as int) + count <= full.len(),
                    code_lengths_upto(code.counts, i as int).len() == count_sum(code.counts, i as int),
                    forall|t: int|
                        0 <= t < count_sum(code.counts, i as int) + count ==> full[t]
                            == #[trigger] code_lengths_upto(code.counts, i + 1)[t],
                    forall|t: int|
                        0 <= t < lengths@.len() ==> lengths@[t] as int == #[trigger] full[t],
                    forall|t: int|
                        0 <= t < patterns@.len() ==> #[trigger] patterns@[t] as int == code_value(
                            full,
                            t,
                        ),
                    pat as int == code_value(full, patterns@.len() as int),
                    pat <= 65536,
                    base as int == code_span(i + 1),
                    1 <= base <= 32768,
                decreases count - j,
            {
                let ghost n = patterns@.len() as int;
                proof {
                    assert(code_lengths_upto(code.counts, i + 1)[n] == i + 1);
                }
                if pat + base > 65536 {
                    proof {
                        lemma_code_value_monotonic(full, n + 1, full.len() as int);
                    }
                    return Err(JpegError::LogicError);
                }
                patterns.push(pat as u16);
                lengths.push((i + 1) as u8);
                pat = pat + base;
                j = j + 1;
            }
            base = base / 2;
            i = i + 1;
        }
        self.bit_pattern = patterns;
        self.bit_length = lengths;
        self.limit = pat;
        Ok(())
    }

    /// The symbol and the length of the code that the 16-bit window `w`
    /// starts with, if there is such a code.
    pub fn lookup(&self, w: u16) -> (r: Option<(u8, u8)>)
        requires
            self.wf(),
        ensures
            match self@.code_index(w as int) {
                Some(i) => r == Some((self@.symbols[i], self@.lengths()[i] as u8)) && 1
                    <= self@.lengths()[i] <= 16,
                None => r.is_none(),
            },
    {
        let ghost full = self@.lengths();
        let n = self.encoding.len();
        let mut i: usize = 0;
        proof {
            lemma_code_lengths_len(self@.counts, 16);
        }
        while i < n
            invariant
                0 <= i <= n,
                self.wf(),
                n == self.encoding@.len(),
                full == self@.lengths(),
                full.len() == n,
                find_code(full, w as int, i as int) == find_code(full, w as int, 0),
            decreases n - i,
        {
            let upper: u32 = if i + 1 < n {
                self.bit_pattern[i + 1] as u32
            } else {
                self.limit
            };
            if (w as u32) < upper {
                proof {
                    lemma_code_lengths_sorted(self@.counts, 16);
                }
                return Some((self.encoding[i], self.bit_length[i]));
            }
            i = i + 1;
        }
        None
    }

    /// The value that `n_bits_ssss` amplitude bits encode, taken from the
    /// head of the 16-bit window `packed_data`.
    pub fn unpack_coefficient(n_bits_ssss: u8, packed_data: u16) -> (v: i16)
        requires
            n_bits_ssss <= 15,
        ensures
            v == amplitude_value(n_bits_ssss as int, packed_data as int),
            n_bits_ssss > 0 && packed_data >= 32768 ==> v > 0,
            n_bits_ssss > 0 && packed_data < 32768 ==> v < 0,
    {
        if n_bits_ssss == 0 {
            return 0;
        }
        let shift: u16 = 16 - n_bits_ssss as u16;
        let bs: u16 = packed_data >> shift;
        let top: i32 = 1i32 << n_bits_ssss;
        proof {
            lemma_u16_shr_is_div(packed_data, shift);
            lemma_amplitude_bounds(n_bits_ssss as int, packed_data as int);
            assert(top == pow2(n_bits_ssss as nat)) by {
                lemma_shift_one(n_bits_ssss);
            }
        }
        if packed_data >= 0x8000 {
            bs as i16
        } else {
            (bs as i32 - (top - 1)) as i16
        }
    }

    /// Reads the symbol at the reader and moves behind its code.
    fn decode_symbol(&self, bsreader: &mut JpegBitStreamReader) -> (r: Result<u8, JpegError>)
        requires
            self.wf(),
            old(bsreader).wf(),
        ensures
            final(bsreader).wf(),
            final(bsreader).data() == old(bsreader).data(),
            match read_symbol(self@, old(bsreader).data(), old(bsreader).pos(), old(bsreader).bit()) {
                Ok((s, c)) => {
                    &&& r == Ok::<u8, JpegError>(s)
                    &&& final(bsreader).pos() == c.0
                    &&& final(bsreader).bit() == c.1
                },
                Err(e) => r == Err::<u8, JpegError>(e),
            },
    {
        let w = bsreader.read_bits16();
        match self.lookup(w) {
            None => Err(JpegError::BadHuffmanSymbol),
            Some((symbol, len)) => match bsreader.move_bitpos(len as usize) {
                Ok(()) => Ok(symbol),
                Err(e) => Err(e),
            },
        }
    }

    /// Reads `n_bits_ssss` amplitude bits at the reader and moves behind
    /// them.
    fn decode_amplitude(n_bits_ssss: u8, bsreader: &mut JpegBitStreamReader) -> (r: Result<
        i16,
        JpegError,
    >)
        requires
            n_bits_ssss <= 15,
            old(bsreader).wf(),
        ensures
            final(bsreader).wf(),
            final(bsreader).data() == old(bsreader).data(),
            match read_amplitude(
                old(bsreader).data(),
                old(bsreader).pos(),
                old(bsreader).bit(),
                n_bits_ssss as int,
            ) {
                Ok((v, c)) => {
                    &&& r == Ok::<i16, JpegError>(v as i16)
                    &&& v == v as i16
                    &&& final(bsreader).pos() == c.0
                    &&& final(bsreader).bit() == c.1
                },
                Err(e) => r == Err::<i16, JpegError>(e),
            },
    {
        if n_bits_ssss == 0 {
            return Ok(0);
        }
        let w = bsreader.read_bits16();
        match bsreader.move_bitpos(n_bits_ssss as usize) {
            Ok(()) => Ok(Self::unpack_coefficient(n_bits_ssss, w)),
            Err(e) => Err(e),
        }
    }

    /// Decodes one DC difference at the reader and moves behind it.
    pub fn decode_dc(&self, bsreader: &mut JpegBitStreamReader) -> (r: Result<i16, JpegError>)
        requires
            self.wf(),
            old(bsreader).wf(),
        ensures
            final(bsreader).wf(),
            final(bsreader).data() == old(bsreader).data(),
            match decode_dc_at(self@, old(bsreader).data(), old(bsreader).pos(), old(bsreader).bit()) {
                Ok((v, c)) => {
                    &&& r == Ok::<i16, JpegError>(v as i16)
                    &&& v == v as i16
                    &&& final(bsreader).pos() == c.0
                    &&& final(bsreader).bit() == c.1
                },
                Err(e) => r == Err::<i16, JpegError>(e),
            },
    {
        match self.decode_symbol(bsreader) {
            Err(e) => Err(e),
            Ok(symbol) => {
                let n_bits_ssss: u8 = symbol % 16;
                Self::decode_amplitude(n_bits_ssss, bsreader)
            },
        }
    }

    /// Decodes one AC symbol at the reader and moves behind it. The end of
    /// the block gives `None`; anything else gives the value and the run of
    /// zeros in front of it.
    pub fn decode_ac(&self, bsreader: &mut JpegBitStreamReader) -> (r: Result<
        Option<(i16, usize)>,
        JpegError,
    >)
        requires
            self.wf(),
            old(bsreader).wf(),
        ensures
            final(bsreader).wf(),
            final(bsreader).data() == old(bsreader).data(),
            match decode_ac_at(self@, old(bsreader).data(), old(bsreader).pos(), old(bsreader).bit()) {
                Ok((None, c)) => {
                    &&& r == Ok::<Option<(i16, usize)>, JpegError>(None)
                    &&& final(bsreader).pos() == c.0
                    &&& final(bsreader).bit() == c.1
                },
                Ok((Some((v, run)), c)) => {
                    &&& r == Ok::<Option<(i16, usize)>, JpegError>(Some((v as i16, run as usize)))
                    &&& v == v as i16
                    &&& 0 <= run <= 15
                    &&& final(bsreader).pos() == c.0
                    &&& final(bsreader).bit() == c.1
                },
                Err(e) => r == Err::<Option<(i16, usize)>, JpegError>(e),
            },
    {
        match self.decode_symbol(bsreader) {
            Err(e) => Err(e),
            Ok(symbol) => {
                if symbol == 0 {
                    return Ok(None);
                }
                let n_bits_ssss: u8 = symbol % 16;
                let n_zero_run: u8 = symbol / 16;
                match Self::decode_amplitude(n_bits_ssss, bsreader) {
                    Err(e) => Err(e),
                    Ok(v) => Ok(Some((v, n_zero_run as usize))),
                }
            },
        }
    }
}

/// A table whose counts are all zero has no code.
proof fn lemma_zero_counts(counts: Seq<u8>, k: int)
    requires
        0 <= k <= counts.len(),
        forall|i: int| 0 <= i < counts.len() ==> counts[i] == 0,
    ensures
        count_sum(counts, k) == 0,
        code_lengths_upto(counts, k) == Seq::<int>::empty(),
    decreases k,
{
    if k > 0 {
        lemma_zero_counts(counts, k - 1);
    }
}

/// The number of codes of the first `k` lengths depends on those counts
/// alone.
proof fn lemma_count_sum_prefix(a: Seq<u8>, b: Seq<u8>, k: int)
    requires
        0 <= k <= a.len(),
        k <= b.len(),
        forall|i: int| 0 <= i < k ==> a[i] == b[i],
    ensures
        count_sum(a, k) == count_sum(b, k),
    decreases k,
{
    if k > 0 {
        lemma_count_sum_prefix(a, b, k - 1);
    }
}

/// One shifted left by `s` is the power of two.
proof fn lemma_shift_one(s: u8)
    requires
        s <= 15,
    ensures
        (1i32 << s) == pow2(s as nat),
{
    lemma2_to64();
    assert(s <= 15 ==> (1i32 << s) == if s == 0 {
        1i32
    } else if s == 1 {
        2
    } else if s == 2 {
        4
    } else if s == 3 {
        8
    } else if s == 4 {
        16
    } else if s == 5 {
        32
    } else if s == 6 {
        64
    } else if s == 7 {
        128
    } else if s == 8 {
        256
    } else if s == 9 {
        512
    } else if s == 10 {
        1024
    } else if s == 11 {
        2048
    } else if s == 12 {
        4096
    } else if s == 13 {
        8192
    } else if s == 14 {
        16384
    } else {
        32768
    }) by (bit_vector);
}

/// The amplitude bits of a window are below `2^ssss`, and so the value
/// they encode fits in 16 signed bits.
pub proof fn lemma_amplitude_bounds(ssss: int, w: int)
    requires
        1 <= ssss <= 15,
        0 <= w < 65536,
    ensures
        0 <= w / code_span(ssss) < pow2(ssss as nat) <= 32768,
        w >= 32768 ==> w / code_span(ssss) >= pow2(ssss as nat) / 2 >= 1,
        w < 32768 ==> w / code_span(ssss) < pow2(ssss as nat) / 2,
        -32767 <= amplitude_value(ssss, w) <= 32767,
        w >= 32768 ==> amplitude_value(ssss, w) > 0,
        w < 32768 ==> amplitude_value(ssss, w) < 0,
{
    lemma2_to64();
    if ssss == 1 {
        assert(0 <= w / 32768 < 2);
    } else if ssss == 2 {
        assert(0 <= w / 16384 < 4);
    } else if ssss == 3 {
        assert(0 <= w / 8192 < 8);
    } else if ssss == 4 {
        assert(0 <= w / 4096 < 16);
    } else if ssss == 5 {
        assert(0 <= w / 2048 < 32);
    } else if ssss == 6 {
        assert(0 <= w / 1024 < 64);
    } else if ssss == 7 {
        assert(0 <= w / 512 < 128);
    } else if ssss == 8 {
        assert(0 <= w / 256 < 256);
    } else if ssss == 9 {
        assert(0 <= w / 128 < 512);
    } else if ssss == 10 {
        assert(0 <= w / 64 < 1024);
    } else if ssss == 11 {
        assert(0 <= w / 32 < 2048);
    } else if ssss == 12 {
        assert(0 <= w / 16 < 4096);
    } else if ssss == 13 {
        assert(0 <= w / 8 < 8192);
    } else if ssss == 14 {
        assert(0 <= w / 4 < 16384);
    } else if ssss == 15 {
        assert(0 <= w / 2 < 32768);
    }
}

/// The mathematical content of the Huffman tables of a decoder: four DC
/// and four AC tables, by table id.
pub struct HuffmanTables {
    pub dc: Seq<HuffmanCode>,
    pub ac: Seq<HuffmanCode>,
}

/// The content of the tables of a decoder before any table is defined:
/// four DC and four AC tables without codes.
pub open spec fn empty_tables() -> HuffmanTables {
    HuffmanTables { dc: Seq::new(4, |i: int| empty_code()), ac: Seq::new(4, |i: int| empty_code()) }
}

/// One table definition of a DHT segment at `pos`: a byte with the class
/// (0 for DC, 1 for AC) in its high four bits and the table id in its low
/// four, then the counts and the symbols. Gives the tables with that one
/// replaced, and the position behind the definition.
pub open spec fn dht_definition_at(tables: HuffmanTables, data: Seq<u8>, pos: int) -> Result<
    (HuffmanTables, int),
    JpegError,
> {
    if pos < 0 || pos >= data.len() {
        Err(JpegError::TruncatedInput)
    } else if data[pos] / 16 > 1 || data[pos] % 16 > 3 {
        Err(JpegError::LogicError)
    } else {
        match table_definition_at(data, pos + 1) {
            Err(e) => Err(e),
            Ok((code, next)) => if data[pos] / 16 == 0 {
                Ok((HuffmanTables { dc: tables.dc.update(data[pos] as int % 16, code), ..tables }, next))
            } else {
                Ok((HuffmanTables { ac: tables.ac.update(data[pos] as int % 16, code), ..tables }, next))
            },
        }
    }
}

impl View for JpegDhtManager {
    type V = HuffmanTables;

    closed spec fn view(&self) -> HuffmanTables {
        HuffmanTables {
            dc: Seq::new(4, |i: int| self.dc[i]@),
            ac: Seq::new(4, |i: int| self.ac[i]@),
        }
    }
}

impl JpegDhtManager {
    /// Every table is well formed.
    pub closed spec fn wf(&self) -> bool {
        &&& forall|i: int| 0 <= i < 4 ==> #[trigger] self.dc[i].wf()
        &&& forall|i: int| 0 <= i < 4 ==> #[trigger] self.ac[i].wf()
    }

    /// There are four tables of each class, all valid.
    pub proof fn lemma_view_valid(&self)
        requires
            self.wf(),
        ensures
            self@.dc.len() == 4,
            self@.ac.len() == 4,
            forall|i: int| 0 <= i < 4 ==> (#[trigger] self@.dc[i]).valid(),
            forall|i: int| 0 <= i < 4 ==> (#[trigger] self@.ac[i]).valid(),
    {
        assert forall|i: int| 0 <= i < 4 implies (#[trigger] self@.dc[i]).valid() by {
            assert(self.dc[i].wf());
        }
        assert forall|i: int| 0 <= i < 4 implies (#[trigger] self@.ac[i]).valid() by {
            assert(self.ac[i].wf());
        }
    }

    /// Tables without any code.
    pub fn new() -> (m: Self)
        ensures
            m.wf(),
            m@ == empty_tables(),
    {
        let m = JpegDhtManager {
            dc: [
                JpegHuffmanTable::new(),
                JpegHuffmanTable::new(),
                JpegHuffmanTable::new(),
                JpegHuffmanTable::new(),
            ],
            ac: [
                JpegHuffmanTable::new(),
                JpegHuffmanTable::new(),
                JpegHuffmanTable::new(),
                JpegHuffmanTable::new(),
            ],
        };
        proof {
            assert(m@.dc =~= empty_tables().dc);
            assert(m@.ac =~= empty_tables().ac);
        }
        m
    }

    /// DC table `table_id`.
    pub fn get_dc_table(&self, table_id: usize) -> (t: &JpegHuffmanTable)
        requires
            self.wf(),
            table_id < 4,
        ensures
            t.wf(),
            t@ == self@.dc[table_id as int],
    {
        &self.dc[table_id]
    }

    /// AC table `table_id`.
    pub fn get_ac_table(&self, table_id: usize) -> (t: &JpegHuffmanTable)
        requires
            self.wf(),
            table_id < 4,
        ensures
            t.wf(),
            t@ == self@.ac[table_id as int],
    {
        &self.ac[table_id]
    }

    /// Reads one table definition of a DHT segment at the reader and puts
    /// the table in its slot. On failure the tables stay as they were.
    pub fn parse_segment(&mut self, reader: &mut JpegReader) -> (r: Result<(), JpegError>)
        requires
            old(self).wf(),
        ensures
            final(self).wf(),
            final(reader).data() == old(reader).data(),
            match dht_definition_at(old(self)@, old(reader).data(), old(reader).pos()) {
                Ok((tables, next)) => r == Ok::<(), JpegError>(()) && final(self)@ == tables
                    && final(reader).pos() == next,
                Err(e) => r == Err::<(), JpegError>(e) && final(self)@ == old(self)@,
            },
    {
        proof {
            reader.lemma_pos_bounds();
        }
        let id = match reader.read_u8() {
            Ok(b) => b,
            Err(e) => {
                return Err(e);
            },
        };
        let class: u8 = id / 16;
        let idx: usize = (id % 16) as usize;
        if class > 1 || idx > 3 {
            return Err(JpegError::LogicError);
        }
        if class == 0 {
            let r = self.dc[idx].parse_segment(id, reader);
            proof {
                if r.is_ok() {
                    assert(self@.dc =~= old(self)@.dc.update(idx as int, self.dc[idx as int]@));
                } else {
                    assert(self@.dc =~= old(self)@.dc);
                }
            }
            r
        } else {
            let r = self.ac[idx].parse_segment(id, reader);
            proof {
                if r.is_ok() {
                    assert(self@.ac =~= old(self)@.ac.update(idx as int, self.ac[idx as int]@));
                } else {
                    assert(self@.ac =~= old(self)@.ac);
                }
            }
            r
        }
    }

    /// Decodes one DC difference with DC table `table_id`.
    pub fn decode_dc(&self, table_id: usize, bsreader: &mut JpegBitStreamReader) -> (r: Result<
        i16,
        JpegError,
    >)
        requires
            self.wf(),
            table_id < 4,
            old(bsreader).wf(),
        ensures
            final(bsreader).wf(),
            final(bsreader).data() == old(bsreader).data(),
            match decode_dc_at(
                self@.dc[table_id as int],
                old(bsreader).data(),
                old(bsreader).pos(),
                old(bsreader).bit(),
            ) {
                Ok((v, c)) => {
                    &&& r == Ok::<i16, JpegError>(v as i16)
                    &&& v == v as i16
                    &&& final(bsreader).pos() == c.0
                    &&& final(bsreader).bit() == c.1
                },
                Err(e) => r == Err::<i16, JpegError>(e),
            },
    {
        self.dc[table_id].decode_dc(bsreader)
    }

    /// Decodes one AC symbol with AC table `table_id`.
    pub fn decode_ac(&self, table_id: usize, bsreader: &mut JpegBitStreamReader) -> (r: Result<
        Option<(i16, usize)>,
        JpegError,
    >)
        requires
            self.wf(),
            table_id < 4,
            old(bsreader).wf(),
        ensures
            final(bsreader).wf(),
            final(bsreader).data() == old(bsreader).data(),
            match decode_ac_at(
                self@.ac[table_id as int],
                old(bsreader).data(),
                old(bsreader).pos(),
                old(bsreader).bit(),
            ) {
                Ok((None, c)) => {
                    &&& r == Ok::<Option<(i16, usize)>, JpegError>(None)
                    &&& final(bsreader).pos() == c.0
                    &&& final(bsreader).bit() == c.1
                },
                Ok((Some((v, run)), c)) => {
                    &&& r == Ok::<Option<(i16, usize)>, JpegError>(Some((v as i16, run as usize)))
                    &&& v == v as i16
                    &&& 0 <= run <= 15
                    &&& final(bsreader).pos() == c.0
                    &&& final(bsreader).bit() == c.1
                },
                Err(e) => r == Err::<Option<(i16, usize)>, JpegError>(e),
            },
    {
        self.ac[table_id].decode_ac(bsreader)
    }

    /// Reads the coefficients of all blocks of `mcu` at the reader.
    /// Afterwards every block is complete, with its cursor at 64, and the
    /// block index is the number of blocks.
    pub fn decode(&self, bsreader: &mut JpegBitStreamReader, mcu: &mut JpegMinimumCodedUnit) -> (r:
        Result<(), JpegError>)
        requires
            self.wf(),
            old(mcu).wf(),
            old(bsreader).wf(),
        ensures
            final(mcu).wf(),
            final(mcu).layout() == old(mcu).layout(),
            final(bsreader).wf(),
            final(bsreader).data() == old(bsreader).data(),
            match mcu_coefficients_at(
                old(mcu).layout(),
                self@,
                old(bsreader).data(),
                ScanState {
                    pos: old(bsreader).pos(),
                    bit: old(bsreader).bit(),
                    predictors: old(mcu).predictors(),
                },
                0,
                Seq::empty(),
            ) {
                Ok((blocks, st)) => {
                    &&& r == Ok::<(), JpegError>(())
                    &&& final(mcu).blocks() == blocks
                    &&& final(mcu).cursors() == Seq::new(
                        old(mcu).layout().num_blocks() as nat,
                        |k: int| 64int,
                    )
                    &&& final(mcu).block_index() == old(mcu).layout().num_blocks()
                    &&& final(mcu).predictors() == st.predictors
                    &&& final(bsreader).pos() == st.pos
                    &&& final(bsreader).bit() == st.bit
                },
                Err(e) => r == Err::<(), JpegError>(e),
            },
    {
        mcu.fill_coefficients(self, bsreader)
    }
}

} // verus!
