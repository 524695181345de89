//! The 8x8 inverse discrete cosine transform in fixed-point arithmetic.
//!
//! The transform is
//! `S(x, y) = 1/4 * sum over u, v of C(u) C(v) F(u, v) cos((2x+1) u pi / 16)
//! cos((2y+1) v pi / 16)` with `C(0) = 1/sqrt(2)` and `C(k) = 1` otherwise.
//! The factor `C(u)/2 * cos((2x+1) u pi / 16)` of sample column `x` and
//! frequency `u` is kept as an integer scaled by `2^20`, so a sample is a
//! sum of integer products scaled by `2^40`. The sum is exact; only the
//! kernel entries are rounded.

use vstd::prelude::*;
use crate::jpeg_color_converter::clamp_u8;
use crate::jpeg_constants::JPEG_SAMPLE_BLOCK_SIZE;

verus! {

/// `kernel[x * 8 + u]` is `2^20 * C(u)/2 * cos((2x+1) u pi / 16)`, rounded
/// to the nearest integer.
pub const JPEG_IDCT_KERNEL: [i32; 64] = [
    370728, 514214, 484379, 435930, 370728, 291279, 200636, 102284,
    370728, 435930, 200636, -102284, -370728, -514214, -484379, -291279,
    370728, 291279, -200636, -514214, -370728, 102284, 484379, 435930,
    370728, 102284, -484379, -291279, 370728, 435930, -200636, -514214,
    370728, -102284, -484379, 291279, 370728, -435930, -200636, 514214,
    370728, -291279, -200636, 514214, -370728, -102284, 484379, -435930,
    370728, -435930, 200636, 102284, -370728, 514214, -484379, 291279,
    370728, -514214, 484379, -435930, 370728, -291279, 200636, -102284,
];

/// The scale of a sum of products of two kernel entries: `2^40`.
pub const JPEG_IDCT_ONE: i64 = 0x100_0000_0000;

/// Half of the scale, added to round to the nearest integer.
pub const JPEG_IDCT_HALF: i64 = 0x80_0000_0000;

/// The level shift of the samples.
pub const JPEG_IDCT_LEVEL_SHIFT: i64 = 128;

/// The scaled kernel entry of sample position `x` and frequency `u`.
pub open spec fn idct_kernel(x: int, u: int) -> int {
    JPEG_IDCT_KERNEL[x * 8 + u] as int
}

/// The sum over the first `n` horizontal frequencies `u` of coefficient
/// `(u, v)` times the kernel entry of column `x`.
pub open spec fn idct_row_sum(f: Seq<i16>, v: int, x: int, n: int) -> int
    decreases n,
{
    if n <= 0 {
        0
    } else {
        idct_row_sum(f, v, x, n - 1) + f[v * 8 + (n - 1)] * idct_kernel(x, n - 1)
    }
}

/// The sum over the first `n` vertical frequencies `v` of the row sum of
/// `v` for column `x` times the kernel entry of row `y`.
pub open spec fn idct_sum(f: Seq<i16>, x: int, y: int, n: int) -> int
    decreases n,
{
    if n <= 0 {
        0
    } else {
        idct_sum(f, x, y, n - 1) + idct_row_sum(f, n - 1, x, 8) * idct_kernel(y, n - 1)
    }
}

/// The sample at column `x` and row `y`: the transform rounded to the
/// nearest integer, shifted up by 128 and limited to `0..=255`.
pub open spec fn idct_sample(f: Seq<i16>, x: int, y: int) -> int {
    clamp_u8((idct_sum(f, x, y, 8) + JPEG_IDCT_HALF) / (JPEG_IDCT_ONE as int) + 128)
}

/// The 64 samples of a block of coefficients, both in natural order.
pub open spec fn idct_block(f: Seq<i16>) -> Seq<i16> {
    Seq::new(64, |i: int| idct_sample(f, i % 8, i / 8) as i16)
}

/// A row sum of `n` terms is at most `n * 2^34` in magnitude.
pub proof fn lemma_row_sum_bounds(f: Seq<i16>, v: int, x: int, n: int)
    requires
        f.len() == 64,
        0 <= v < 8,
        0 <= x < 8,
        0 <= n <= 8,
    ensures
        -n * 0x4_0000_0000 <= idct_row_sum(f, v, x, n) <= n * 0x4_0000_0000,
    decreases n,
{
    if n > 0 {
        lemma_row_sum_bounds(f, v, x, n - 1);
        let a = f[v * 8 + (n - 1)] as int;
        let k = idct_kernel(x, n - 1);
        assert(-0x4_0000_0000 <= a * k <= 0x4_0000_0000) by (nonlinear_arith)
            requires
                -32768 <= a <= 32767,
                -524288 <= k <= 524288,
        ;
    }
}

/// A sum of `n` terms is at most `n * 2^56` in magnitude.
pub proof fn lemma_sum_bounds(f: Seq<i16>, x: int, y: int, n: int)
    requires
        f.len() == 64,
        0 <= x < 8,
        0 <= y < 8,
        0 <= n <= 8,
    ensures
        -n * 0x100_0000_0000_0000 <= idct_sum(f, x, y, n) <= n * 0x100_0000_0000_0000,
    decreases n,
{
    if n > 0 {
        lemma_sum_bounds(f, x, y, n - 1);
        lemma_row_sum_bounds(f, n - 1, x, 8);
        let a = idct_row_sum(f, n - 1, x, 8);
        let k = idct_kernel(y, n - 1);
        assert(-0x100_0000_0000_0000 <= a * k <= 0x100_0000_0000_0000) by (nonlinear_arith)
            requires
                -0x20_0000_0000 <= a <= 0x20_0000_0000,
                -524288 <= k <= 524288,
        ;
    }
}

/// Every sample of a transformed block lies in `0..=255`.
pub proof fn lemma_idct_block_range(f: Seq<i16>)
    ensures
        idct_block(f).len() == 64,
        forall|i: int| 0 <= i < 64 ==> 0 <= #[trigger] idct_block(f)[i] <= 255,
{
}

/// The row sums of a block whose coefficients are all zero but the first
/// are the first coefficient times the first kernel entry in row 0 and
/// zero in the other rows.
proof fn lemma_row_sum_dc_only(f: Seq<i16>, v: int, x: int, n: int)
    requires
        f.len() == 64,
        forall|i: int| 1 <= i < 64 ==> f[i] == 0,
        0 <= v < 8,
        0 <= x < 8,
        0 <= n <= 8,
    ensures
        idct_row_sum(f, v, x, n) == if v == 0 && n > 0 {
            f[0] * 370728
        } else {
            0
        },
    decreases n,
{
    if n > 0 {
        lemma_row_sum_dc_only(f, v, x, n - 1);
    }
}

proof fn lemma_sum_dc_only(f: Seq<i16>, x: int, y: int, n: int)
    requires
        f.len() == 64,
        forall|i: int| 1 <= i < 64 ==> f[i] == 0,
        0 <= x < 8,
        0 <= y < 8,
        0 <= n <= 8,
    ensures
        idct_sum(f, x, y, n) == if n > 0 {
            f[0] * 370728 * 370728
        } else {
            0
        },
    decreases n,
{
    if n > 0 {
        lemma_sum_dc_only(f, x, y, n - 1);
        lemma_row_sum_dc_only(f, n - 1, x, 8);
    }
}

/// A block with no coefficient but the DC coefficient transforms to a flat
/// block: all 64 samples are equal.
pub proof fn lemma_idct_dc_only(f: Seq<i16>)
    requires
        f.len() == 64,
        forall|i: int| 1 <= i < 64 ==> f[i] == 0,
    ensures
        forall|i: int|
            0 <= i < 64 ==> #[trigger] idct_block(f)[i] == clamp_u8(
                (f[0] * 137439249984 + 0x80_0000_0000) / 0x100_0000_0000 + 128,
            ),
{
    assert forall|i: int| 0 <= i < 64 implies #[trigger] idct_block(f)[i] == clamp_u8(
        (f[0] * 137439249984 + 0x80_0000_0000) / 0x100_0000_0000 + 128,
    ) by {
        lemma_sum_dc_only(f, i % 8, i / 8, 8);
        assert(f[0] * 370728 * 370728 == f[0] * 137439249984) by (nonlinear_arith);
    }
}

/// Scratch memory of the transform.
pub struct JpegIdctManager {
    tmp: [i64; JPEG_SAMPLE_BLOCK_SIZE],
}

impl JpegIdctManager {
    /// What the scratch memory holds: after a transform, the row sums of
    /// the block, the sum of frequency row `v` and column `x` at index
    /// `v * 8 + x`.
    pub closed spec fn scratch(&self) -> Seq<i64> {
        self.tmp@
    }

    /// Scratch memory for one block, filled with zeros.
    pub fn new() -> (m: Self)
        ensures
            m.scratch() == Seq::new(64, |i: int| 0i64),
    {
        let m = JpegIdctManager { tmp: [0;64] };
        assert(m.scratch() =~= Seq::new(64, |i: int| 0i64));
        m
    }

    /// A scaled sum rounded to the nearest integer, shifted up by 128 and
    /// limited to `0..=255`.
    fn offset_and_clamp(val: i64) -> (r: i16)
        requires
            -0x1000_0000_0000_0000 <= val <= 0x1000_0000_0000_0000,
        ensures
            r == clamp_u8((val + JPEG_IDCT_HALF) / (JPEG_IDCT_ONE as int) + 128),
    {
        let shifted: i64 = val + JPEG_IDCT_HALF + JPEG_IDCT_LEVEL_SHIFT * JPEG_IDCT_ONE;
        if shifted < 0 {
            0
        } else {
            let i: i64 = shifted / JPEG_IDCT_ONE;
            if i > 255 {
                255
            } else {
                i as i16
            }
        }
    }

    /// Transforms the 64 coefficients of a block, in natural order, into
    /// its 64 samples, in place.
    pub fn idct(&mut self, coef: &mut [i16; 64])
        ensures
            final(coef)@ == idct_block(old(coef)@),
            final(self).scratch().len() == 64,
            forall|v: int, x: int|
                0 <= v < 8 && 0 <= x < 8 ==> #[trigger] final(self).scratch()[v * 8 + x] == idct_row_sum(
                    old(coef)@,
                    v,
                    x,
                    8,
                ),
    {
        let ghost f = coef@;
        // First pass: the row sums of every frequency row v and column x.
        let mut v: usize = 0;
        while v < 8
            invariant
                0 <= v <= 8,
                coef@ == f,
                f.len() == 64,
                forall|r: int, x: int|
                    0 <= r < v && 0 <= x < 8 ==> #[trigger] self.tmp[r * 8 + x] == idct_row_sum(
                        f,
                        r,
                        x,
                        8,
                    ),
            decreases 8 - v,
        {
            let mut x: usize = 0;
            while x < 8
                invariant
                    0 <= v < 8,
                    0 <= x <= 8,
                    coef@ == f,
                    f.len() == 64,
                    forall|r: int, c: int|
                        0 <= r < v && 0 <= c < 8 ==> #[trigger] self.tmp[r * 8 + c] == idct_row_sum(
                            f,
                            r,
                            c,
                            8,
                        ),
                    forall|c: int|
                        0 <= c < x ==> #[trigger] self.tmp[v * 8 + c] == idct_row_sum(
                            f,
                            v as int,
                            c,
                            8,
                        ),
                decreases 8 - x,
            {
                let mut acc: i64 = 0;
                let mut u: usize = 0;
                while u < 8
                    invariant
                        0 <= v < 8,
                        0 <= x < 8,
                        0 <= u <= 8,
                        coef@ == f,
                        f.len() == 64,
                        acc == idct_row_sum(f, v as int, x as int, u as int),
                    decreases 8 - u,
                {
                    proof {
                        lemma_row_sum_bounds(f, v as int, x as int, u as int);
                        lemma_row_sum_bounds(f, v as int, x as int, u + 1);
                    }
                    acc = acc + coef[v * 8 + u] as i64 * JPEG_IDCT_KERNEL[x * 8 + u] as i64;
                    u = u + 1;
                }
                self.tmp[v * 8 + x] = acc;
                x = x + 1;
            }
            v = v + 1;
        }
        // Second pass: the sum over the frequency rows for every sample.
        let mut y: usize = 0;
        while y < 8
            invariant
                0 <= y <= 8,
                f.len() == 64,
                forall|r: int, x: int|
                    0 <= r < 8 && 0 <= x < 8 ==> #[trigger] self.tmp[r * 8 + x] == idct_row_sum(
                        f,
                        r,
                        x,
                        8,
                    ),
                forall|i: int| 0 <= i < y * 8 ==> #[trigger] coef@[i] == idct_block(f)[i],
            decreases 8 - y,
        {
            let mut x: usize = 0;
            while x < 8
                invariant
                    0 <= y < 8,
                    0 <= x <= 8,
                    f.len() == 64,
                    forall|r: int, c: int|
                        0 <= r < 8 && 0 <= c < 8 ==> #[trigger] self.tmp[r * 8 + c] == idct_row_sum(
                            f,
                            r,
                            c,
                            8,
                        ),
                    forall|i: int| 0 <= i < y * 8 + x ==> #[trigger] coef@[i] == idct_block(f)[i],
                decreases 8 - x,
            {
                let mut acc: i64 = 0;
                let mut v: usize = 0;
                while v < 8
                    invariant
                        0 <= y < 8,
                        0 <= x < 8,
                        0 <= v <= 8,
                        f.len() == 64,
                        forall|r: int, c: int|
                            0 <= r < 8 && 0 <= c < 8 ==> #[trigger] self.tmp[r * 8 + c]
                                == idct_row_sum(f, r, c, 8),
                        acc == idct_sum(f, x as int, y as int, v as int),
                    decreases 8 - v,
                {
                    proof {
                        lemma_sum_bounds(f, x as int, y as int, v as int);
                        lemma_row_sum_bounds(f, v as int, x as int, 8);
                        let a = idct_row_sum(f, v as int, x as int, 8);
                        let k = idct_kernel(y as int, v as int);
                        assert(-0x100_0000_0000_0000 <= a * k <= 0x100_0000_0000_0000)
                            by (nonlinear_arith)
                            requires
                                -0x20_0000_0000 <= a <= 0x20_0000_0000,
                                -524288 <= k <= 524288,
                        ;
                    }
                    acc = acc + self.tmp[v * 8 + x] * JPEG_IDCT_KERNEL[y * 8 + v] as i64;
                    v = v + 1;
                }
                proof {
                    lemma_sum_bounds(f, x as int, y as int, 8);
                }
                coef[y * 8 + x] = Self::offset_and_clamp(acc);
                x = x + 1;
            }
            y = y + 1;
        }
    }
}

} // verus!
