//! Constants shared by the stages of the decoder.

use vstd::prelude::*;

verus! {

/// Number of samples in one 8x8 block.
pub const JPEG_SAMPLE_BLOCK_SIZE: usize = 64;

/// Largest number of colour components in a frame.
pub const JPEG_MAX_NUM_OF_COMPONENTS: usize = 3;

/// Largest number of blocks in one minimum coded unit.
pub const JPEG_MCU_MAX_NUM_BLOCKS: usize = 10;

/// Number of table slots of each kind (quantization, DC, AC).
pub const JPEG_NUM_TABLES: usize = 4;

/// Reverse zig-zag permutation: the natural (row-major) index of the
/// coefficient stored at each position of the zig-zag sequence.
pub const JPEG_REV_ZIGZAG_TABLE: [u8; 64] = [
    0, 1, 8, 16, 9, 2, 3, 10, 17, 24, 32, 25, 18, 11, 4, 5,
    12, 19, 26, 33, 40, 48, 41, 34, 27, 20, 13, 6, 7, 14, 21, 28,
    35, 42, 49, 56, 57, 50, 43, 36, 29, 22, 15, 23, 30, 37, 44, 51,
    58, 59, 52, 45, 38, 31, 39, 46, 53, 60, 61, 54, 47, 55, 62, 63,
];

/// Zig-zag permutation: the position in the zig-zag sequence of each
/// natural index. It is the inverse of `JPEG_REV_ZIGZAG_TABLE`.
pub const JPEG_ZIGZAG_TABLE: [u8; 64] = [
    0, 1, 5, 6, 14, 15, 27, 28,
    2, 4, 7, 13, 16, 26, 29, 42,
    3, 8, 12, 17, 25, 30, 41, 43,
    9, 11, 18, 24, 31, 40, 44, 53,
    10, 19, 23, 32, 39, 45, 52, 54,
    20, 22, 33, 38, 46, 51, 55, 60,
    21, 34, 37, 47, 50, 56, 59, 61,
    35, 36, 48, 49, 57, 58, 62, 63,
];

/// Natural index of zig-zag position `i`: entry `i` of
/// `JPEG_REV_ZIGZAG_TABLE`.
pub closed spec fn rev_zigzag(i: int) -> int {
    JPEG_REV_ZIGZAG_TABLE[i] as int
}

/// Zig-zag position of natural index `k`: entry `k` of
/// `JPEG_ZIGZAG_TABLE`.
pub closed spec fn zigzag(k: int) -> int {
    JPEG_ZIGZAG_TABLE[k] as int
}

/// The two functions read the two tables.
pub proof fn lemma_zigzag_tables(i: int)
    requires
        0 <= i < 64,
    ensures
        rev_zigzag(i) == JPEG_REV_ZIGZAG_TABLE[i],
        zigzag(i) == JPEG_ZIGZAG_TABLE[i],
{
}

/// Natural index of zig-zag position `i`.
pub fn rev_zigzag_index(i: usize) -> (k: usize)
    requires
        i < 64,
    ensures
        k == rev_zigzag(i as int),
        k < 64,
{
    JPEG_REV_ZIGZAG_TABLE[i] as usize
}

/// The two tables are inverse permutations of `0..64`.
pub proof fn lemma_zigzag_inverse()
    ensures
        forall|i: int| 0 <= i < 64 ==> 0 <= #[trigger] rev_zigzag(i) < 64 && zigzag(rev_zigzag(i)) == i,
        forall|k: int| 0 <= k < 64 ==> 0 <= #[trigger] zigzag(k) < 64 && rev_zigzag(zigzag(k)) == k,
{
}

} // verus!
