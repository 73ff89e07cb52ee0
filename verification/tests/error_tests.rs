use spectrogram_encoder::PipelineError;

#[test]
fn every_error_has_its_own_message() {
    let all = [
        PipelineError::InvalidInputLength,
        PipelineError::InvalidDimension,
        PipelineError::SampleRateTooLow,
        PipelineError::EmptyBuffer,
        PipelineError::SilentSignal,
    ];
    for (i, a) in all.iter().enumerate() {
        assert!(!a.message().is_empty());
        for (j, b) in all.iter().enumerate() {
            assert_eq!(i == j, a == b);
            assert_eq!(i == j, a.message() == b.message());
        }
    }
}

#[test]
fn messages_name_the_fault() {
    assert_eq!(
        PipelineError::InvalidInputLength.message(),
        "RGBA byte count is not a multiple of 4"
    );
    assert_eq!(PipelineError::EmptyBuffer.message(), "no samples to process");
    assert_eq!(
        PipelineError::SilentSignal.message(),
        "signal is all zero and cannot be normalised"
    );
}
