//! Conversion of one pixel from YCbCr to RGB in integer arithmetic.

use vstd::prelude::*;

verus! {

/// `x` limited to the range of a byte.
pub open spec fn clamp_u8(x: int) -> int {
    if x < 0 {
        0
    } else if x > 255 {
        255
    } else {
        x
    }
}

/// The RGB value of a YCbCr pixel in 16.16 fixed point:
/// `R = Y + 1.402 (Cr - 128)`, `G = Y - 0.344 (Cb - 128) - 0.714 (Cr - 128)`,
/// `B = Y + 1.772 (Cb - 128)`, each rounded down and limited to `0..=255`.
pub open spec fn ycbcr_to_rgb_spec(y: int, cb: int, cr: int) -> (int, int, int) {
    let y32 = y * 65536;
    let cb1 = cb * 256 - 32768;
    let cr1 = cr * 256 - 32768;
    (
        clamp_u8((y32 + 359 * cr1) / 65536),
        clamp_u8((y32 - 88 * cb1 - 183 * cr1) / 65536),
        clamp_u8((y32 + 454 * cb1) / 65536),
    )
}

/// Every converted sample lies in `0..=255`.
pub proof fn lemma_rgb_in_range(y: int, cb: int, cr: int)
    ensures
        0 <= ycbcr_to_rgb_spec(y, cb, cr).0 <= 255,
        0 <= ycbcr_to_rgb_spec(y, cb, cr).1 <= 255,
        0 <= ycbcr_to_rgb_spec(y, cb, cr).2 <= 255,
{
}

/// A pixel whose chroma is neutral is the grey of its luma.
pub proof fn lemma_neutral_chroma_is_grey(y: int)
    requires
        0 <= y <= 255,
    ensures
        ycbcr_to_rgb_spec(y, 128, 128) == (y, y, y),
{
}

/// A 16.16 fixed-point value rounded down to a byte.
fn fixed_to_u8(v: i64) -> (r: u8)
    ensures
        r == clamp_u8(v as int / 65536),
{
    if v < 0 {
        0
    } else if v > 0xFFFFFF {
        255
    } else {
        (v / 65536) as u8
    }
}

/// The three components as they are, each kept in its low 8 bits.
pub fn pass_through_components(y: i16, cb: i16, cr: i16) -> (rgb: (u8, u8, u8))
    ensures
        rgb.0 == y as int % 256,
        rgb.1 == cb as int % 256,
        rgb.2 == cr as int % 256,
{
    (
        ((y as i32 + 32768) % 256) as u8,
        ((cb as i32 + 32768) % 256) as u8,
        ((cr as i32 + 32768) % 256) as u8,
    )
}

/// Converts one YCbCr pixel to RGB.
pub fn ycbcr_to_rgb(y: i16, cb: i16, cr: i16) -> (rgb: (u8, u8, u8))
    ensures
        (rgb.0 as int, rgb.1 as int, rgb.2 as int) == ycbcr_to_rgb_spec(
            y as int,
            cb as int,
            cr as int,
        ),
{
    let ly: i64 = y as i64 * 65536;
    let lcb: i64 = cb as i64 * 256 - 0x8000;
    let lcr: i64 = cr as i64 * 256 - 0x8000;
    let r: i64 = ly + 359 * lcr;
    let g: i64 = ly - 88 * lcb - 183 * lcr;
    let b: i64 = ly + 454 * lcb;
    (fixed_to_u8(r), fixed_to_u8(g), fixed_to_u8(b))
}

} // verus!
