//! Which WAV sample formats are read, and how their samples are scaled to
//! `[-1.0, 1.0]`.

use vstd::prelude::*;

verus! {

/// How samples are stored in a WAV file.
#[derive(Debug, Clone, Copy, PartialEq, Eq)]
pub enum SampleFormat {
    /// Two's complement integers.
    Int,
    /// IEEE floats.
    Float,
}

/// The header fields of a WAV file that decide how it is read.
#[derive(Debug, Clone, Copy, PartialEq, Eq)]
pub struct WavFormat {
    /// Number of interleaved channels.
    pub channels: u16,
    /// Samples per second, per channel.
    pub sample_rate: u32,
    /// Bits per sample.
    pub bits_per_sample: u16,
    /// Integer or float samples.
    pub sample_format: SampleFormat,
}

/// How the samples of a supported format are read.
#[derive(Debug, Clone, Copy, PartialEq, Eq)]
pub enum SampleDecoding {
    /// 8-bit integers, divided by `i8::MAX` (127).
    Int8,
    /// 16-bit integers, divided by `i16::MAX` (32767).
    Int16,
    /// 24-bit integers (read as `i32`), divided by `2^23 - 1`.
    Int24,
    /// 32-bit integers, divided by `i32::MAX`.
    Int32,
    /// 32-bit floats, taken as they are.
    Float32,
}

/// Why a WAV file is not read.
#[derive(Debug, Clone, Copy, PartialEq, Eq)]
pub enum WavError {
    /// The header announces no channel.
    ZeroChannels,
    /// A sample format and width that is not supported.
    UnsupportedFormat { format: SampleFormat, bits: u16 },
}

/// The decoding for a format and width, if supported.
pub open spec fn decoding_for(format: SampleFormat, bits: u16) -> Option<SampleDecoding> {
    match (format, bits) {
        (SampleFormat::Int, 8) => Some(SampleDecoding::Int8),
        (SampleFormat::Int, 16) => Some(SampleDecoding::Int16),
        (SampleFormat::Int, 24) => Some(SampleDecoding::Int24),
        (SampleFormat::Int, 32) => Some(SampleDecoding::Int32),
        (SampleFormat::Float, 32) => Some(SampleDecoding::Float32),
        _ => None,
    }
}

/// How a file with header `spec` is read: a file without channels is
/// refused first, then any format other than 8/16/24/32-bit integers and
/// 32-bit floats.
pub open spec fn decoding_result(spec: WavFormat) -> Result<SampleDecoding, WavError> {
    if spec.channels == 0 {
        Err(WavError::ZeroChannels)
    } else {
        match decoding_for(spec.sample_format, spec.bits_per_sample) {
            Some(d) => Ok(d),
            None => Err(
                WavError::UnsupportedFormat {
                    format: spec.sample_format,
                    bits: spec.bits_per_sample,
                },
            ),
        }
    }
}

/// Decide how a WAV file with header `spec` is read.
pub fn select_decoding(spec: &WavFormat) -> (r: Result<SampleDecoding, WavError>)
    ensures
        r == decoding_result(*spec),
{
    if spec.channels == 0 {
        return Err(WavError::ZeroChannels);
    }
    match (spec.sample_format, spec.bits_per_sample) {
        (SampleFormat::Int, 8) => Ok(SampleDecoding::Int8),
        (SampleFormat::Int, 16) => Ok(SampleDecoding::Int16),
        (SampleFormat::Int, 24) => Ok(SampleDecoding::Int24),
        (SampleFormat::Int, 32) => Ok(SampleDecoding::Int32),
        (SampleFormat::Float, 32) => Ok(SampleDecoding::Float32),
        _ => Err(
            WavError::UnsupportedFormat {
                format: spec.sample_format,
                bits: spec.bits_per_sample,
            },
        ),
    }
}

impl SampleDecoding {
    /// The value that an integer sample is divided by: the largest
    /// positive sample of its width, `2^(bits-1) - 1`.  `None` for float
    /// samples, which are used as they are.
    pub fn full_scale(&self) -> (r: Option<u32>)
        ensures
            r == match self {
                SampleDecoding::Int8 => Some(127u32),
                SampleDecoding::Int16 => Some(32767u32),
                SampleDecoding::Int24 => Some(8388607u32),
                SampleDecoding::Int32 => Some(2147483647u32),
                SampleDecoding::Float32 => None::<u32>,
            },
    {
        match self {
            SampleDecoding::Int8 => Some(127),
            SampleDecoding::Int16 => Some(32767),
            SampleDecoding::Int24 => Some(8388607),
            SampleDecoding::Int32 => Some(2147483647),
            SampleDecoding::Float32 => None,
        }
    }
}

/// The number of mono samples a downmix of `len` interleaved samples over
/// `channels` channels gives: one per whole frame.
pub fn mono_len(len: usize, channels: usize) -> (r: usize)
    requires
        channels > 0,
    ensures
        r == len / channels,
        r * channels <= len < (r + 1) * channels,
{
    let r = len / channels;
    assert(r * channels <= len < (r + 1) * channels) by (nonlinear_arith)
        requires
            r == len / channels,
            channels > 0,
    ;
    r
}

/// The five supported layouts are read for every channel count: 8, 16,
/// 24 and 32-bit integers and 32-bit floats, each with its own decoding.
pub proof fn lemma_supported_layouts(f: WavFormat)
    requires
        f.channels > 0,
    ensures
        f.sample_format == SampleFormat::Int && f.bits_per_sample == 8 ==> decoding_result(f)
            == Ok::<SampleDecoding, WavError>(SampleDecoding::Int8),
        f.sample_format == SampleFormat::Int && f.bits_per_sample == 16 ==> decoding_result(f)
            == Ok::<SampleDecoding, WavError>(SampleDecoding::Int16),
        f.sample_format == SampleFormat::Int && f.bits_per_sample == 24 ==> decoding_result(f)
            == Ok::<SampleDecoding, WavError>(SampleDecoding::Int24),
        f.sample_format == SampleFormat::Int && f.bits_per_sample == 32 ==> decoding_result(f)
            == Ok::<SampleDecoding, WavError>(SampleDecoding::Int32),
        f.sample_format == SampleFormat::Float && f.bits_per_sample == 32 ==> decoding_result(f)
            == Ok::<SampleDecoding, WavError>(SampleDecoding::Float32),
        !(f.sample_format == SampleFormat::Int && (f.bits_per_sample == 8 || f.bits_per_sample
            == 16 || f.bits_per_sample == 24 || f.bits_per_sample == 32)) && !(f.sample_format
            == SampleFormat::Float && f.bits_per_sample == 32) ==> decoding_result(f) == Err::<
            SampleDecoding,
            WavError,
        >(WavError::UnsupportedFormat { format: f.sample_format, bits: f.bits_per_sample }),
{
}

/// The channel count matters only when it is zero: any two headers with
/// channels that differ only in their channel count are read alike, and a
/// header without channels is refused whatever its layout.
pub proof fn lemma_decoding_ignores_channel_count(f: WavFormat, g: WavFormat)
    requires
        f.sample_format == g.sample_format,
        f.bits_per_sample == g.bits_per_sample,
        f.channels > 0,
        g.channels > 0,
    ensures
        decoding_result(f) == decoding_result(g),
        decoding_result(WavFormat { channels: 0, ..f }) == Err::<SampleDecoding, WavError>(
            WavError::ZeroChannels,
        ),
{
}

#[verifier::external_type_specification]
#[verifier::external_body]
pub struct ExHoundError(hound::Error);

/// The header that hound reads from the bytes of a WAV file, or `None`
/// when hound refuses them.
pub uninterp spec fn hound_header(bytes: Seq<u8>) -> Option<WavFormat>;

/// The interleaved samples that hound decodes as `i32` from the bytes of a
/// WAV file, or `None` when it cannot decode them all.
pub uninterp spec fn hound_int_samples(bytes: Seq<u8>) -> Option<Seq<i32>>;

/// `hound::WavReader::new` over the bytes, then `WavReader::spec`.  The
/// contract claims that the result is a function of the bytes alone, and,
/// as hound's header parser shows (it refuses a format chunk with zero
/// channels), that a header it accepts has at least one channel.
#[verifier::external_body]
fn read_header(bytes: &[u8]) -> (r: Result<WavFormat, hound::Error>)
    ensures
        match r {
            Ok(f) => hound_header(bytes@) == Some(f) && f.channels > 0,
            Err(_) => hound_header(bytes@) is None,
        },
{
    let spec = hound::WavReader::new(std::io::Cursor::new(bytes))?.spec();
    let sample_format = match spec.sample_format {
        hound::SampleFormat::Int => SampleFormat::Int,
        hound::SampleFormat::Float => SampleFormat::Float,
    };
    Ok(WavFormat {
        channels: spec.channels,
        sample_rate: spec.sample_rate,
        bits_per_sample: spec.bits_per_sample,
        sample_format,
    })
}

/// `hound::WavReader::new` over the bytes, then every item of
/// `WavReader::samples::<i32>`, stopping at the first error.  The contract
/// claims that the result is a function of the bytes alone and, as hound's
/// source shows (`WavReader::new` refuses a data length that is not a
/// whole number of frames, and the iterator yields exactly that many
/// samples), that decoded samples come from an accepted header and fill
/// whole frames.  Which values hound decodes is left to the name.
#[verifier::external_body]
fn read_int_samples(bytes: &[u8]) -> (r: Result<Vec<i32>, hound::Error>)
    ensures
        match r {
            Ok(v) => hound_int_samples(bytes@) == Some(v@) && (hound_header(bytes@) matches Some(
                f,
            ) && v@.len() % (f.channels as nat) == 0),
            Err(_) => hound_int_samples(bytes@) is None,
        },
{
    let mut reader = hound::WavReader::new(std::io::Cursor::new(bytes))?;
    reader.samples::<i32>().collect::<Result<Vec<i32>, hound::Error>>()
}

/// Why a WAV file is not read.
#[derive(Debug)]
pub enum WavReadError {
    /// hound refuses the bytes (the header or a sample).
    Decode(hound::Error),
    /// The header names a layout that is not read.
    Format(WavError),
}

/// A WAV file as the analysis reads it.
#[derive(Debug)]
pub enum DecodedWav {
    /// Integer samples, interleaved, with the decoding that scales them and
    /// the number of whole frames (mono samples after the downmix).
    Integer { format: WavFormat, decoding: SampleDecoding, samples: Vec<i32>, frames: usize },
    /// Float samples, which are read as floats by the caller.
    Float { format: WavFormat },
}

/// Read the bytes of a WAV file: the header through hound, the choice of
/// decoding, then the integer samples through hound.  A header hound
/// refuses, a refused layout, and samples hound cannot decode are errors,
/// in that order.
pub fn decode_wav(bytes: &[u8]) -> (r: Result<DecodedWav, WavReadError>)
    ensures
        match hound_header(bytes@) {
            None => r matches Err(WavReadError::Decode(_)),
            Some(f) => match decoding_result(f) {
                Err(e) => r matches Err(WavReadError::Format(e2)) && e2 == e,
                Ok(SampleDecoding::Float32) => r matches Ok(DecodedWav::Float { format }) && format
                    == f,
                Ok(d) => match hound_int_samples(bytes@) {
                    None => r matches Err(WavReadError::Decode(_)),
                    Some(s) => r matches Ok(
                        DecodedWav::Integer { format, decoding, samples, frames },
                    ) && format == f && decoding == d && samples@ == s && f.channels > 0
                        && frames == s.len() / (f.channels as nat) && frames * (f.channels as nat)
                        == s.len(),
                },
            },
        },
{
    let format = match read_header(bytes) {
        Ok(f) => f,
        Err(e) => return Err(WavReadError::Decode(e)),
    };
    let decoding = match select_decoding(&format) {
        Ok(d) => d,
        Err(e) => return Err(WavReadError::Format(e)),
    };
    if let SampleDecoding::Float32 = decoding {
        return Ok(DecodedWav::Float { format });
    }
    let samples = match read_int_samples(bytes) {
        Ok(v) => v,
        Err(e) => return Err(WavReadError::Decode(e)),
    };
    let channels = format.channels as usize;
    let frames = mono_len(samples.len(), channels);
    proof {
        let n = samples@.len();
        let c = channels as nat;
        assert(frames * c == n) by (nonlinear_arith)
            requires
                frames * c <= n < (frames + 1) * c,
                n % c == 0,
                c > 0,
        ;
    }
    Ok(DecodedWav::Integer { format, decoding, samples, frames })
}

} // verus!
