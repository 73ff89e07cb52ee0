//! The ways in which the pipeline rejects its input.

use vstd::prelude::*;

verus! {

/// Why an image could not be turned into sound.
#[derive(Debug, Clone, Copy, PartialEq, Eq, Structural)]
pub enum PipelineError {
    /// The RGBA buffer does not consist of whole four-byte pixels.
    InvalidInputLength,
    /// The declared width and height do not describe the pixels supplied, or
    /// describe a raster that cannot be held in memory.
    InvalidDimension,
    /// The sample rate is too low to place the image below the top
    /// frequency of the spectrogram display.
    SampleRateTooLow,
    /// There are no samples to post-process.
    EmptyBuffer,
    /// Every sample is zero, so there is no peak to normalise to.
    SilentSignal,
}

impl PipelineError {
    /// A short human-readable description of the error.
    pub fn message(&self) -> (text: &'static str)
        ensures
            text@ == match *self {
                PipelineError::InvalidInputLength => "RGBA byte count is not a multiple of 4"@,
                PipelineError::InvalidDimension => "width and height do not match the pixel data"@,
                PipelineError::SampleRateTooLow => "sample rate is below twice the spectrogram's top frequency"@,
                PipelineError::EmptyBuffer => "no samples to process"@,
                PipelineError::SilentSignal => "signal is all zero and cannot be normalised"@,
            },
    {
        match self {
            PipelineError::InvalidInputLength => "RGBA byte count is not a multiple of 4",
            PipelineError::InvalidDimension => "width and height do not match the pixel data",
            PipelineError::SampleRateTooLow => "sample rate is below twice the spectrogram's top frequency",
            PipelineError::EmptyBuffer => "no samples to process",
            PipelineError::SilentSignal => "signal is all zero and cannot be normalised",
        }
    }
}

} // verus!
