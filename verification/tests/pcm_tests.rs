use spectrogram_encoder::encode_pcm16;
use spectrogram_encoder::pcm::container_or_none;

#[test]
fn container_has_header_then_little_endian_samples() {
    let samples = vec![0i16, 1, -1, 32767, -32768, 258];
    let bytes = encode_pcm16(&samples, 44100).unwrap();
    assert_eq!(bytes.len(), 44 + 12);
    assert_eq!(&bytes[0..4], b"RIFF");
    assert_eq!(&bytes[4..8], &(36u32 + 12).to_le_bytes());
    assert_eq!(&bytes[8..12], b"WAVE");
    assert_eq!(&bytes[12..16], b"fmt ");
    assert_eq!(&bytes[16..20], &16u32.to_le_bytes());
    assert_eq!(&bytes[20..22], &1u16.to_le_bytes());
    assert_eq!(&bytes[22..24], &1u16.to_le_bytes());
    assert_eq!(&bytes[24..28], &44100u32.to_le_bytes());
    assert_eq!(&bytes[28..32], &88200u32.to_le_bytes());
    assert_eq!(&bytes[32..34], &2u16.to_le_bytes());
    assert_eq!(&bytes[34..36], &16u16.to_le_bytes());
    assert_eq!(&bytes[36..40], b"data");
    assert_eq!(&bytes[40..44], &12u32.to_le_bytes());
    assert_eq!(
        &bytes[44..],
        &[0x00, 0x00, 0x01, 0x00, 0xff, 0xff, 0xff, 0x7f, 0x00, 0x80, 0x02, 0x01]
    );
}

#[test]
fn container_reads_back_as_mono_16_bit() {
    let samples: Vec<i16> = (0..1000).map(|i| ((i * 37) % 65536 - 32768) as i16).collect();
    let bytes = encode_pcm16(&samples, 16000).unwrap();
    let mut reader = hound::WavReader::new(std::io::Cursor::new(bytes)).unwrap();
    let spec = reader.spec();
    assert_eq!(spec.channels, 1);
    assert_eq!(spec.sample_rate, 16000);
    assert_eq!(spec.bits_per_sample, 16);
    assert_eq!(spec.sample_format, hound::SampleFormat::Int);
    let read: Vec<i16> = reader.samples::<i16>().map(|s| s.unwrap()).collect();
    assert_eq!(read, samples);
}

#[test]
fn container_of_no_samples_is_a_bare_header() {
    let bytes = encode_pcm16(&Vec::new(), 8000).unwrap();
    assert_eq!(bytes.len(), 44);
    assert_eq!(&bytes[40..44], &0u32.to_le_bytes());
}

#[test]
fn same_input_gives_the_same_bytes() {
    let samples = vec![5i16, -5, 500, -500];
    assert_eq!(encode_pcm16(&samples, 22050), encode_pcm16(&samples, 22050));
    assert_ne!(encode_pcm16(&samples, 22050), encode_pcm16(&samples, 22051));
}

#[test]
fn rate_of_zero_cannot_be_encoded() {
    assert_eq!(encode_pcm16(&vec![1, 2, 3], 0), None);
}

#[test]
fn rate_whose_byte_rate_overflows_cannot_be_encoded() {
    assert_eq!(encode_pcm16(&vec![1, 2, 3], u32::MAX), None);
    assert_eq!(encode_pcm16(&vec![1, 2, 3], u32::MAX / 2 + 1), None);
    assert!(encode_pcm16(&vec![1, 2, 3], u32::MAX / 2).is_some());
}

#[test]
fn writer_failure_gives_no_container() {
    assert_eq!(container_or_none(Err(hound::Error::Unsupported)), None);
    assert_eq!(container_or_none(Err(hound::Error::UnfinishedSample)), None);
}

#[test]
fn writer_success_gives_its_bytes() {
    assert_eq!(container_or_none(Ok(vec![1, 2, 3])), Some(vec![1, 2, 3]));
    assert_eq!(container_or_none(Ok(Vec::new())), Some(Vec::new()));
}
