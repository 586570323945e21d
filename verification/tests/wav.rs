use rank_wav_rs::wav::{mono_len, select_decoding, SampleDecoding, SampleFormat, WavError, WavFormat};

fn spec(channels: u16, bits: u16, format: SampleFormat) -> WavFormat {
    WavFormat { channels, sample_rate: 44100, bits_per_sample: bits, sample_format: format }
}

#[test]
fn supported_formats_are_selected() {
    assert_eq!(select_decoding(&spec(1, 8, SampleFormat::Int)), Ok(SampleDecoding::Int8));
    assert_eq!(select_decoding(&spec(2, 16, SampleFormat::Int)), Ok(SampleDecoding::Int16));
    assert_eq!(select_decoding(&spec(1, 24, SampleFormat::Int)), Ok(SampleDecoding::Int24));
    assert_eq!(select_decoding(&spec(6, 32, SampleFormat::Int)), Ok(SampleDecoding::Int32));
    assert_eq!(select_decoding(&spec(1, 32, SampleFormat::Float)), Ok(SampleDecoding::Float32));
}

#[test]
fn unsupported_formats_are_refused() {
    assert_eq!(
        select_decoding(&spec(1, 64, SampleFormat::Float)),
        Err(WavError::UnsupportedFormat { format: SampleFormat::Float, bits: 64 })
    );
    assert_eq!(
        select_decoding(&spec(1, 12, SampleFormat::Int)),
        Err(WavError::UnsupportedFormat { format: SampleFormat::Int, bits: 12 })
    );
    assert_eq!(select_decoding(&spec(0, 16, SampleFormat::Int)), Err(WavError::ZeroChannels));
    assert_eq!(select_decoding(&spec(0, 64, SampleFormat::Float)), Err(WavError::ZeroChannels));
}

#[test]
fn full_scales() {
    assert_eq!(SampleDecoding::Int8.full_scale(), Some(127));
    assert_eq!(SampleDecoding::Int16.full_scale(), Some(32767));
    assert_eq!(SampleDecoding::Int24.full_scale(), Some(8_388_607));
    assert_eq!(SampleDecoding::Int32.full_scale(), Some(2_147_483_647));
    assert_eq!(SampleDecoding::Float32.full_scale(), None);
    // As in the original WAV tests: 32767 reads as 1.0, 16383 as about 0.5.
    let s16 = SampleDecoding::Int16.full_scale().unwrap() as f32;
    assert_eq!(32767.0 / s16, 1.0);
    assert!((16383.0 / s16 - 0.5f32).abs() < 0.001);
}

#[test]
fn downmix_keeps_whole_frames() {
    assert_eq!(mono_len(8192, 2), 4096);
    assert_eq!(mono_len(4, 1), 4);
    assert_eq!(mono_len(7, 2), 3);
    assert_eq!(mono_len(0, 3), 0);
}
