//! Image-to-sound spectrogram encoder.
//!
//! A raster image is reduced to luma, padded, inverted, rotated and
//! mirror-extended so that every row of the result is an even-symmetric
//! magnitude spectrum. Feeding each row through a discrete Fourier transform
//! and concatenating the real parts yields a waveform whose spectrogram shows
//! the picture.
//!
//! This crate holds the integer side of that pipeline: everything up to the
//! spectrum rows, and the framing of quantised samples as a PCM container.

pub mod error;
pub mod image;
pub mod luma;
pub mod pcm;
pub mod pipeline;
pub mod raster;

pub use error::PipelineError;
pub use image::Image;
pub use pcm::encode_pcm16;
pub use pipeline::{image_to_spectrum, MAX_SPECTROGRAM_FREQ};
