use spectrogram_encoder::pipeline::compute_padded_height;
use spectrogram_encoder::{image_to_spectrum, PipelineError, MAX_SPECTROGRAM_FREQ};

fn solid(r: u8, g: u8, b: u8, a: u8, pixels: usize) -> Vec<u8> {
    let mut rgba = Vec::new();
    for _ in 0..pixels {
        rgba.push(r);
        rgba.push(g);
        rgba.push(b);
        rgba.push(a);
    }
    rgba
}

#[test]
fn top_frequency_is_8000() {
    assert_eq!(MAX_SPECTROGRAM_FREQ, 8000);
}

#[test]
fn mid_grey_square_at_the_lowest_rate() {
    let spectrum = image_to_spectrum(solid(128, 128, 128, 255, 4), 2, 2, 16000, 8000).unwrap();
    assert_eq!(spectrum.width(), 4);
    assert_eq!(spectrum.height(), 2);
    assert_eq!(spectrum.luma(), &vec![127; 8]);
}

#[test]
fn rate_just_below_twice_the_top_frequency_is_too_low() {
    assert_eq!(
        image_to_spectrum(solid(128, 128, 128, 255, 4), 2, 2, 15999, 8000).err(),
        Some(PipelineError::SampleRateTooLow)
    );
    assert_eq!(
        image_to_spectrum(solid(128, 128, 128, 255, 4), 2, 2, 0, 8000).err(),
        Some(PipelineError::SampleRateTooLow)
    );
}

#[test]
fn boundary_follows_the_top_frequency() {
    let rgba = solid(10, 10, 10, 255, 6);
    assert!(image_to_spectrum(rgba.clone(), 2, 3, 2000, 1000).is_ok());
    assert_eq!(
        image_to_spectrum(rgba, 2, 3, 1999, 1000).err(),
        Some(PipelineError::SampleRateTooLow)
    );
}

#[test]
fn image_is_padded_inverted_turned_and_mirrored() {
    // One grey pixel at twice the lowest rate: one white row goes on top.
    let spectrum = image_to_spectrum(solid(100, 100, 100, 255, 1), 1, 1, 32000, 8000).unwrap();
    assert_eq!(spectrum.width(), 4);
    assert_eq!(spectrum.height(), 1);
    assert_eq!(spectrum.luma(), &vec![155, 0, 0, 155]);
}

#[test]
fn columns_become_rows_in_order() {
    // 10 20
    // 30 40
    let mut rgba = Vec::new();
    for v in [10u8, 20, 30, 40] {
        rgba.extend_from_slice(&[v, v, v, 255]);
    }
    let spectrum = image_to_spectrum(rgba, 2, 2, 24000, 8000).unwrap();
    // Padded height 3: a white row, then the image; inverted; every column
    // read from the bottom up, then mirrored.
    assert_eq!(spectrum.width(), 6);
    assert_eq!(spectrum.height(), 2);
    assert_eq!(
        spectrum.spectral_rows(),
        vec![vec![225, 245, 0, 0, 245, 225], vec![215, 235, 0, 0, 235, 215]]
    );
}

#[test]
fn black_image_gives_a_full_spectrum() {
    let spectrum = image_to_spectrum(solid(0, 0, 0, 255, 6), 3, 2, 16000, 8000).unwrap();
    assert_eq!(spectrum.width(), 4);
    assert_eq!(spectrum.height(), 3);
    assert_eq!(spectrum.luma(), &vec![255; 12]);
}

#[test]
fn white_image_is_silent() {
    assert_eq!(
        image_to_spectrum(solid(255, 255, 255, 255, 6), 3, 2, 16000, 8000).err(),
        Some(PipelineError::SilentSignal)
    );
    assert_eq!(
        image_to_spectrum(solid(255, 255, 255, 255, 6), 3, 2, 44100, 8000).err(),
        Some(PipelineError::SilentSignal)
    );
}

#[test]
fn transparent_image_is_silent() {
    assert_eq!(
        image_to_spectrum(solid(13, 77, 201, 0, 4), 2, 2, 16000, 8000).err(),
        Some(PipelineError::SilentSignal)
    );
}

#[test]
fn one_pixel_off_white_is_not_silent() {
    let mut rgba = solid(255, 255, 255, 255, 4);
    rgba[4] = 250;
    let spectrum = image_to_spectrum(rgba, 2, 2, 16000, 8000).unwrap();
    // luma of (250, 255, 255) is floor(253.937) = 253, inverted 2
    assert_eq!(spectrum.spectral_rows(), vec![vec![0, 0, 0, 0], vec![0, 2, 2, 0]]);
}

#[test]
fn image_without_pixels_gives_no_samples() {
    assert_eq!(
        image_to_spectrum(Vec::new(), 0, 0, 16000, 8000).err(),
        Some(PipelineError::EmptyBuffer)
    );
    assert_eq!(
        image_to_spectrum(Vec::new(), 0, 3, 16000, 8000).err(),
        Some(PipelineError::EmptyBuffer)
    );
    assert_eq!(
        image_to_spectrum(Vec::new(), 3, 0, 100, 8000).err(),
        Some(PipelineError::EmptyBuffer)
    );
}

#[test]
fn input_errors_come_first() {
    assert_eq!(
        image_to_spectrum(vec![0; 15], 2, 2, 100, 8000).err(),
        Some(PipelineError::InvalidInputLength)
    );
    assert_eq!(
        image_to_spectrum(vec![0; 12], 2, 2, 100, 8000).err(),
        Some(PipelineError::InvalidDimension)
    );
    assert_eq!(
        image_to_spectrum(vec![0; 20], 2, 2, 16000, 8000).err(),
        Some(PipelineError::InvalidDimension)
    );
}

#[test]
fn spectrum_beyond_the_address_space_is_rejected() {
    assert_eq!(
        image_to_spectrum(Vec::new(), 0, usize::MAX, 32000, 8000).err(),
        Some(PipelineError::InvalidDimension)
    );
    assert_eq!(
        image_to_spectrum(solid(0, 0, 0, 255, 2), 2, 1, usize::MAX, 1).err(),
        Some(PipelineError::InvalidDimension)
    );
}

#[test]
fn padded_height_is_rounded_down() {
    assert_eq!(compute_padded_height(100, 44100, 8000), Some(275));
    assert_eq!(compute_padded_height(160, 44100, 8000), Some(441));
    assert_eq!(compute_padded_height(2, 15999, 8000), Some(1));
    assert_eq!(compute_padded_height(2, 16000, 8000), Some(2));
    assert_eq!(compute_padded_height(3, 16001, 8000), Some(3));
    assert_eq!(compute_padded_height(7, 48000, 8000), Some(21));
    assert_eq!(compute_padded_height(0, 48000, 8000), Some(0));
    assert_eq!(compute_padded_height(5, 0, 8000), Some(0));
}

#[test]
fn padded_height_that_does_not_fit_is_none() {
    assert_eq!(compute_padded_height(usize::MAX, 32000, 8000), None);
    assert_eq!(compute_padded_height(usize::MAX, usize::MAX, 1), None);
    assert_eq!(compute_padded_height(usize::MAX, 16000, 8000), Some(usize::MAX));
    assert_eq!(compute_padded_height(usize::MAX, 2, 1), Some(usize::MAX));
}

#[test]
fn spectrum_has_a_row_per_column_of_twice_the_padded_height() {
    let spectrum = image_to_spectrum(solid(1, 2, 3, 255, 15), 5, 3, 44100, 8000).unwrap();
    // 3 * 44100 / 16000 = 8.26875
    assert_eq!(spectrum.height(), 5);
    assert_eq!(spectrum.width(), 16);
    assert_eq!(spectrum.luma().len(), 80);
}

#[test]
fn padded_height_reaches_the_height_exactly_from_twice_the_top_frequency() {
    for height in 1..60usize {
        for rate in 15980..16020usize {
            let padded = compute_padded_height(height, rate, 8000).unwrap();
            assert_eq!(padded >= height, rate >= 16000);
        }
        assert_eq!(compute_padded_height(height, 16000, 8000), Some(height));
    }
}

#[test]
fn silent_exactly_when_every_pixel_is_white_or_background() {
    let mut rgba = solid(255, 255, 255, 255, 6);
    rgba[8] = 0;
    rgba[9] = 0;
    rgba[10] = 0;
    rgba[11] = 3;
    assert_eq!(
        image_to_spectrum(rgba.clone(), 2, 3, 20000, 8000).err(),
        Some(PipelineError::SilentSignal)
    );
    rgba[11] = 10;
    let spectrum = image_to_spectrum(rgba, 2, 3, 20000, 8000).unwrap();
    assert!(!spectrum.is_blank());
    assert_eq!(spectrum.luma().iter().filter(|&&v| v != 0).count(), 2);
}
