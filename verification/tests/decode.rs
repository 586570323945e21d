use hound::{WavSpec, WavWriter};
use rank_wav_rs::wav::{
    decode_wav, DecodedWav, SampleDecoding, SampleFormat, WavReadError,
};
use std::io::Cursor;

fn wav_bytes<S: hound::Sample + Copy>(
    channels: u16,
    bits: u16,
    format: hound::SampleFormat,
    samples: &[S],
) -> Vec<u8> {
    let mut buffer = Vec::new();
    {
        let spec = WavSpec { channels, sample_rate: 44100, bits_per_sample: bits, sample_format: format };
        let mut writer = WavWriter::new(Cursor::new(&mut buffer), spec).unwrap();
        for &s in samples {
            writer.write_sample(s).unwrap();
        }
        writer.finalize().unwrap();
    }
    buffer
}

#[test]
fn decode_mono_16bit() {
    let bytes = wav_bytes(1, 16, hound::SampleFormat::Int, &[0i16, 16383, -16384, 32767]);
    match decode_wav(&bytes) {
        Ok(DecodedWav::Integer { format, decoding, samples, frames }) => {
            assert_eq!(format.sample_rate, 44100);
            assert_eq!(format.channels, 1);
            assert_eq!(format.sample_format, SampleFormat::Int);
            assert_eq!(decoding, SampleDecoding::Int16);
            assert_eq!(samples, vec![0, 16383, -16384, 32767]);
            assert_eq!(frames, 4);
        }
        other => panic!("unexpected {other:?}"),
    }
}

#[test]
fn decode_stereo_16bit_counts_frames() {
    let bytes = wav_bytes(2, 16, hound::SampleFormat::Int, &[32767i16, -32767, 16384, 16384]);
    match decode_wav(&bytes) {
        Ok(DecodedWav::Integer { format, samples, frames, .. }) => {
            assert_eq!(format.channels, 2);
            assert_eq!(samples, vec![32767, -32767, 16384, 16384]);
            assert_eq!(frames, 2);
        }
        other => panic!("unexpected {other:?}"),
    }
}

#[test]
fn decode_8bit_and_24bit() {
    let bytes = wav_bytes(1, 8, hound::SampleFormat::Int, &[-128i8, 0, 127]);
    match decode_wav(&bytes) {
        Ok(DecodedWav::Integer { decoding, samples, .. }) => {
            assert_eq!(decoding, SampleDecoding::Int8);
            assert_eq!(samples, vec![-128, 0, 127]);
        }
        other => panic!("unexpected {other:?}"),
    }
    let bytes = wav_bytes(1, 24, hound::SampleFormat::Int, &[-8_388_608i32, 8_388_607]);
    match decode_wav(&bytes) {
        Ok(DecodedWav::Integer { decoding, samples, .. }) => {
            assert_eq!(decoding, SampleDecoding::Int24);
            assert_eq!(samples, vec![-8_388_608, 8_388_607]);
        }
        other => panic!("unexpected {other:?}"),
    }
}

#[test]
fn decode_float_leaves_samples_to_caller() {
    let bytes = wav_bytes(1, 32, hound::SampleFormat::Float, &[0.5f32, -0.25]);
    match decode_wav(&bytes) {
        Ok(DecodedWav::Float { format }) => {
            assert_eq!(format.sample_format, SampleFormat::Float);
            assert_eq!(format.bits_per_sample, 32);
        }
        other => panic!("unexpected {other:?}"),
    }
}

#[test]
fn decode_refuses_garbage() {
    assert!(matches!(decode_wav(b"not a wav"), Err(WavReadError::Decode(_))));
    assert!(matches!(decode_wav(&[]), Err(WavReadError::Decode(_))));
}
