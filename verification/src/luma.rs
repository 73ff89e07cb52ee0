//! Reduction of RGBA pixels to luma.

use vstd::prelude::*;
use crate::error::PipelineError;

verus! {

/// Pixels whose alpha lies below this value count as background.
pub const ALPHA_CUTOFF: u8 = 10;

/// The luma given to background pixels: white.
pub const BACKGROUND: u8 = 255;

/// The BT.709 weight of red, in ten-thousandths.
pub const WEIGHT_RED: u32 = 2126;

/// The BT.709 weight of green, in ten-thousandths.
pub const WEIGHT_GREEN: u32 = 7152;

/// The BT.709 weight of blue, in ten-thousandths.
pub const WEIGHT_BLUE: u32 = 722;

/// The unit in which the weights are given; they add up to it.
pub const WEIGHT_SCALE: u32 = 10000;

/// The luma of one pixel: white where the pixel is nearly transparent,
/// otherwise the BT.709 weighted sum `0.2126 r + 0.7152 g + 0.0722 b`,
/// rounded down.
pub open spec fn luma_of(r: u8, g: u8, b: u8, a: u8) -> u8 {
    if a < ALPHA_CUTOFF {
        BACKGROUND
    } else {
        ((WEIGHT_RED * r + WEIGHT_GREEN * g + WEIGHT_BLUE * b) / (WEIGHT_SCALE as int)) as u8
    }
}

/// The luma plane of an RGBA buffer: one byte for every whole pixel, in order.
pub open spec fn luma_plane(rgba: Seq<u8>) -> Seq<u8> {
    Seq::new(
        rgba.len() / 4,
        |i: int| luma_of(rgba[4 * i], rgba[4 * i + 1], rgba[4 * i + 2], rgba[4 * i + 3]),
    )
}

/// Computes the luma of one RGBA pixel.
pub fn rgb_to_luma(r: u8, g: u8, b: u8, a: u8) -> (luma: u8)
    ensures
        luma == luma_of(r, g, b, a),
        a < 10 ==> luma == 255,
        a >= 10 ==> 10000 * luma <= 2126 * r + 7152 * g + 722 * b < 10000 * (luma + 1),
{
    if a < ALPHA_CUTOFF {
        return BACKGROUND;
    }
    let weighted: u32 = WEIGHT_RED * (r as u32) + WEIGHT_GREEN * (g as u32) + WEIGHT_BLUE * (b as u32);
    (weighted / WEIGHT_SCALE) as u8
}

/// Converts an RGBA buffer to its luma plane.
///
/// The buffer must consist of whole pixels; a trailing group of fewer than
/// four bytes is rejected with [`PipelineError::InvalidInputLength`].
pub fn rgba_to_luma(rgba: &Vec<u8>) -> (result: Result<Vec<u8>, PipelineError>)
    ensures
        result is Ok <==> rgba@.len() % 4 == 0,
        result matches Ok(plane) ==> plane@ == luma_plane(rgba@),
        result matches Err(e) ==> e == PipelineError::InvalidInputLength,
{
    let len: usize = rgba.len();
    if len % 4 != 0 {
        return Err(PipelineError::InvalidInputLength);
    }
    let pixels: usize = len / 4;
    let mut plane: Vec<u8> = Vec::with_capacity(pixels);
    let mut i: usize = 0;
    while i < pixels
        invariant
            len == rgba@.len(),
            len == 4 * pixels,
            i <= pixels,
            plane@.len() == i,
            forall|k: int| 0 <= k < i ==> plane@[k] == luma_plane(rgba@)[k],
        decreases pixels - i,
    {
        let at: usize = 4 * i;
        plane.push(rgb_to_luma(rgba[at], rgba[at + 1], rgba[at + 2], rgba[at + 3]));
        i += 1;
    }
    assert(plane@ =~= luma_plane(rgba@));
    Ok(plane)
}

/// A grey pixel that is not background keeps its value.
pub proof fn lemma_grey_keeps_value(v: u8, a: u8)
    requires
        a >= 10,
    ensures
        luma_of(v, v, v, a) == v,
{
}

} // verus!
