//! The fixed sequence of steps that turns an RGBA image into the spectrum
//! rows from which the waveform is synthesised.

use vstd::prelude::*;
use vstd::arithmetic::div_mod::lemma_fundamental_div_mod;
use crate::error::PipelineError;
use crate::image::Image;
use crate::luma::luma_plane;
use crate::raster::Raster;

verus! {

/// The top frequency that common spectrogram viewers display by default, in
/// hertz.
pub const MAX_SPECTROGRAM_FREQ: u32 = 8000;

/// The height to which an image of `height` rows is padded so that it fills
/// the band below `max_freq` of a spectrogram sampled at `sample_rate`:
/// `height * sample_rate / (2 * max_freq)`, rounded down.
pub open spec fn padded_height(height: nat, sample_rate: nat, max_freq: nat) -> nat {
    (height * sample_rate) / (2 * max_freq)
}

/// The spectrum of an image: its luma raster, padded at the top to the
/// padded height, inverted so that dark pixels are strong, turned so that
/// image columns become rows, and mirror-extended so that every row is an
/// even-symmetric spectrum.
pub open spec fn spectrum_of(
    rgba: Seq<u8>,
    width: nat,
    height: nat,
    sample_rate: nat,
    max_freq: nat,
) -> Raster {
    let source = Raster { width, height, luma: luma_plane(rgba) };
    let padding = (padded_height(height, sample_rate, max_freq) - height) as nat;
    source.padded_top(padding).inverted().rotated().mirrored()
}

/// Which error, if any, the pipeline ends in. The checks are made in this
/// order:
///
/// * the buffer must consist of whole pixels, `width * height` of them;
/// * the padded height must not be less than the height;
/// * the spectrum, `width` rows of twice the padded height, must fit in
///   memory;
/// * it must hold at least one value, or no sample would be synthesised;
/// * it must hold a value other than zero, or the signal would be silence.
pub open spec fn pipeline_error(
    rgba: Seq<u8>,
    width: nat,
    height: nat,
    sample_rate: nat,
    max_freq: nat,
) -> Option<PipelineError> {
    let padded = padded_height(height, sample_rate, max_freq);
    if rgba.len() % 4 != 0 {
        Some(PipelineError::InvalidInputLength)
    } else if rgba.len() / 4 != width * height {
        Some(PipelineError::InvalidDimension)
    } else if padded < height {
        Some(PipelineError::SampleRateTooLow)
    } else if 2 * padded > usize::MAX || 2 * padded * width > usize::MAX {
        Some(PipelineError::InvalidDimension)
    } else if 2 * padded * width == 0 {
        Some(PipelineError::EmptyBuffer)
    } else if spectrum_of(rgba, width, height, sample_rate, max_freq).is_blank() {
        Some(PipelineError::SilentSignal)
    } else {
        None
    }
}

/// For an image with at least one row, the padded height reaches the height
/// exactly when the sample rate is at least twice the top frequency, and
/// equals it at that rate.
pub proof fn lemma_sample_rate_boundary(height: nat, sample_rate: nat, max_freq: nat)
    requires
        height > 0,
        max_freq > 0,
    ensures
        padded_height(height, sample_rate, max_freq) >= height <==> sample_rate >= 2 * max_freq,
        sample_rate == 2 * max_freq ==> padded_height(height, sample_rate, max_freq) == height,
{
    let d = (2 * max_freq) as int;
    let x = (height * sample_rate) as int;
    let q = x / d;
    lemma_fundamental_div_mod(x, d);
    if sample_rate >= 2 * max_freq {
        assert(x >= height * d) by (nonlinear_arith)
            requires
                x == height * sample_rate,
                sample_rate >= d,
        ;
        assert(q >= height) by (nonlinear_arith)
            requires
                x >= height * d,
                x == d * q + x % d,
                0 <= x % d < d,
        ;
    } else {
        assert(x < height * d) by (nonlinear_arith)
            requires
                x == height * sample_rate,
                sample_rate < d,
                height > 0,
        ;
        assert(q < height) by (nonlinear_arith)
            requires
                x < height * d,
                x == d * q + x % d,
                0 <= x % d < d,
        ;
    }
    if sample_rate == 2 * max_freq {
        assert(x == height * d) by (nonlinear_arith)
            requires
                x == height * sample_rate,
                sample_rate == d,
        ;
        assert(q == height) by (nonlinear_arith)
            requires
                x == height * d,
                x == d * q + x % d,
                0 <= x % d < d,
        ;
    }
}

/// The spectrum of an image is all zero, and the signal therefore silent,
/// exactly if every pixel of the image has luma 255: is white or background.
pub proof fn lemma_silent_exactly_if_white(
    rgba: Seq<u8>,
    width: nat,
    height: nat,
    sample_rate: nat,
    max_freq: nat,
)
    requires
        rgba.len() == 4 * (width * height),
    ensures
        spectrum_of(rgba, width, height, sample_rate, max_freq).is_blank() <==> forall|i: int|
            0 <= i < width * height ==> luma_plane(rgba)[i] == 255,
{
    let source = Raster { width, height, luma: luma_plane(rgba) };
    let padding = (padded_height(height, sample_rate, max_freq) - height) as nat;
    let padded = source.padded_top(padding);
    let inverse = padded.inverted();
    let turned = inverse.rotated();
    assert(source.wf());
    source.lemma_padded_top_wf(padding);
    padded.lemma_inverted_wf();
    inverse.lemma_rotated_wf();
    source.lemma_padded_top_white(padding);
    padded.lemma_inverted_blank();
    inverse.lemma_rotated_blank();
    turned.lemma_mirrored_blank();
    assert(source.is_white() <==> forall|i: int|
        0 <= i < width * height ==> luma_plane(rgba)[i] == 255);
}

/// Computes the padded height, or `None` where it does not fit a `usize`.
pub fn compute_padded_height(height: usize, sample_rate: usize, max_freq: u32) -> (padded: Option<
    usize,
>)
    requires
        max_freq > 0,
    ensures
        padded matches Some(p) ==> p == padded_height(
            height as nat,
            sample_rate as nat,
            max_freq as nat,
        ),
        padded is None <==> padded_height(height as nat, sample_rate as nat, max_freq as nat)
            > usize::MAX,
{
    assert(height * sample_rate <= 0xffff_ffff_ffff_ffff * 0xffff_ffff_ffff_ffff)
        by (nonlinear_arith)
        requires
            height <= 0xffff_ffff_ffff_ffff,
            sample_rate <= 0xffff_ffff_ffff_ffff,
    ;
    let product: u128 = (height as u128) * (sample_rate as u128);
    let quotient: u128 = product / (2 * (max_freq as u128));
    if quotient > usize::MAX as u128 {
        None
    } else {
        Some(quotient as usize)
    }
}

/// Prepares the spectrum of an RGBA image of `width` by `height` pixels for
/// synthesis at `sample_rate`, with the image filling the band below
/// `max_freq`.
///
/// Row `k` of the result is column `k` of the padded, inverted image, read
/// from the bottom up and followed by its own reverse; the transform of each
/// row, taken in order, makes up the waveform.
pub fn image_to_spectrum(
    data: Vec<u8>,
    width: usize,
    height: usize,
    sample_rate: usize,
    max_freq: u32,
) -> (result: Result<Image, PipelineError>)
    requires
        max_freq > 0,
    ensures
        result is Ok <==> pipeline_error(
            data@,
            width as nat,
            height as nat,
            sample_rate as nat,
            max_freq as nat,
        ) is None,
        result matches Ok(spectrum) ==> spectrum@ == spectrum_of(
            data@,
            width as nat,
            height as nat,
            sample_rate as nat,
            max_freq as nat,
        ) && spectrum@.wf() && spectrum@.height == width && spectrum@.width == 2 * padded_height(
            height as nat,
            sample_rate as nat,
            max_freq as nat,
        ) && spectrum@.rows_symmetric() && !spectrum@.is_blank(),
        result matches Err(e) ==> Some(e) == pipeline_error(
            data@,
            width as nat,
            height as nat,
            sample_rate as nat,
            max_freq as nat,
        ),
{
    let mut image = match Image::new(data, width, height) {
        Ok(image) => image,
        Err(e) => { return Err(e); },
    };
    let padded: usize = match compute_padded_height(height, sample_rate, max_freq) {
        Some(padded) => padded,
        None => { return Err(PipelineError::InvalidDimension); },
    };
    if padded < height {
        return Err(PipelineError::SampleRateTooLow);
    }
    let row_len: usize = match padded.checked_mul(2) {
        Some(row_len) => row_len,
        None => { return Err(PipelineError::InvalidDimension); },
    };
    let count: usize = match row_len.checked_mul(width) {
        Some(count) => count,
        None => { return Err(PipelineError::InvalidDimension); },
    };
    if count == 0 {
        return Err(PipelineError::EmptyBuffer);
    }
    assert(padded * width <= usize::MAX) by (nonlinear_arith)
        requires
            2 * padded * width <= usize::MAX,
            0 <= padded,
            0 <= width,
    ;
    image.pad_top(padded - height);
    image.invert();
    image.rotate90();
    image.reflect_about_y_axis();
    if image.is_blank() {
        return Err(PipelineError::SilentSignal);
    }
    Ok(image)
}

} // verus!
