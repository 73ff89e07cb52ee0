//! Framing of quantised samples as a PCM container.

use vstd::prelude::*;

verus! {

/// The number of channels of the audio: mono.
pub const PCM_CHANNELS: u16 = 1;

/// The number of bits of one sample.
pub const PCM_BITS: u16 = 16;

/// The bytes that a RIFF/WAVE container has before its first sample.
pub const HEADER_BYTES: u32 = 44;

/// The error type of `hound`'s readers and writers.
#[verifier::external_type_specification]
#[verifier::external_body]
pub struct ExHoundError(hound::Error);

/// What `hound` makes of integer samples of the given format: the bytes of
/// the WAVE container that it writes, or nothing where its writer fails.
pub uninterp spec fn wave_container(
    channels: u16,
    sample_rate: u32,
    bits_per_sample: u16,
    samples: Seq<i16>,
) -> Option<Seq<u8>>;

/// Whether a WAVE container can hold `count` 16-bit samples on `channels`
/// channels at `sample_rate`: the rate is positive, and the byte rate and
/// the size of the whole file, less the eight bytes of its first chunk
/// header, fit the 32-bit fields of the header.
pub open spec fn container_holds(channels: u16, sample_rate: u32, count: nat) -> bool {
    &&& 1 <= channels <= 2
    &&& 1 <= sample_rate
    &&& 2 * channels * sample_rate <= u32::MAX
    &&& 2 * count + (HEADER_BYTES - 8) <= u32::MAX
}

/// Writes `samples` into an in-memory WAVE file with `hound::WavWriter`:
/// `WavWriter::new` on a cursor over an empty vector, `write_sample` for each
/// sample in order, then `finalize`.
///
/// Trusted: what the writer yields, failure or success and the bytes that
/// it then leaves in the vector, is a function of the format and the samples
/// alone; it works in memory and consults nothing else. Nothing is claimed
/// about when it succeeds. The precondition keeps the writer's unchecked
/// 32-bit arithmetic on the byte rate and on the data and file sizes in
/// range, and its division by the sample rate defined.
#[verifier::external_body]
fn write_wave(channels: u16, sample_rate: u32, bits_per_sample: u16, samples: &Vec<i16>) -> (out:
    Result<Vec<u8>, hound::Error>)
    requires
        bits_per_sample == 16,
        container_holds(channels, sample_rate, samples@.len()),
    ensures
        out matches Ok(bytes) ==> wave_container(channels, sample_rate, bits_per_sample, samples@)
            == Some(bytes@),
        out is Err ==> wave_container(channels, sample_rate, bits_per_sample, samples@) is None,
{
    let format = hound::WavSpec {
        channels,
        sample_rate,
        bits_per_sample,
        sample_format: hound::SampleFormat::Int,
    };
    let mut buffer = std::io::Cursor::new(Vec::new());
    let mut writer = hound::WavWriter::new(&mut buffer, format)?;
    for sample in samples.iter() {
        writer.write_sample(*sample)?;
    }
    writer.finalize()?;
    Ok(buffer.into_inner())
}

/// What the encoder hands on after the writer has run: the container where
/// the writer succeeded, nothing where it failed.
pub fn container_or_none(written: Result<Vec<u8>, hound::Error>) -> (out: Option<Vec<u8>>)
    ensures
        out == match written {
            Ok(bytes) => Some(bytes),
            Err(_) => None,
        },
{
    match written {
        Ok(bytes) => Some(bytes),
        Err(_) => None,
    }
}

/// The mono, 16-bit PCM container of `samples` at `sample_rate`: what the
/// writer makes of them where a container can hold them, nothing otherwise.
pub open spec fn pcm16_container(sample_rate: u32, samples: Seq<i16>) -> Option<Seq<u8>> {
    if container_holds(PCM_CHANNELS, sample_rate, samples.len()) {
        wave_container(PCM_CHANNELS, sample_rate, PCM_BITS, samples)
    } else {
        None
    }
}

/// Encodes quantised samples as a mono, 16-bit, little-endian PCM container
/// at `sample_rate`.
///
/// Returns `None` where the container cannot hold the samples at that rate,
/// or where the writer fails.
pub fn encode_pcm16(samples: &Vec<i16>, sample_rate: u32) -> (out: Option<Vec<u8>>)
    ensures
        out matches Some(bytes) ==> pcm16_container(sample_rate, samples@) == Some(bytes@),
        out is None ==> pcm16_container(sample_rate, samples@) is None,
        !container_holds(PCM_CHANNELS, sample_rate, samples@.len()) ==> out is None,
{
    let count: usize = samples.len();
    if sample_rate == 0 || sample_rate > u32::MAX / 2 {
        return None;
    }
    if count > ((u32::MAX - (HEADER_BYTES - 8)) / 2) as usize {
        return None;
    }
    assert(PCM_CHANNELS == 1 && HEADER_BYTES == 44);
    assert(2 * PCM_CHANNELS * sample_rate == 2 * sample_rate) by (nonlinear_arith)
        requires
            PCM_CHANNELS == 1,
    ;
    container_or_none(write_wave(PCM_CHANNELS, sample_rate, PCM_BITS, samples))
}

} // verus!
