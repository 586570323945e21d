use rank_wav_rs::features::{
    analysis_window, check_sample_count, count_zero_crossings, AnalysisWindow, FeatureError,
    SampleSign,
};

#[test]
fn sample_count_below_minimum_is_refused() {
    assert_eq!(check_sample_count(10), Err(FeatureError::TooFewSamples { got: 10 }));
    assert_eq!(check_sample_count(127), Err(FeatureError::TooFewSamples { got: 127 }));
    assert_eq!(check_sample_count(128), Ok(()));
    assert_eq!(check_sample_count(1024), Ok(()));
}

#[test]
fn constant_signs_never_cross() {
    let signs = vec![SampleSign::NonNegative; 1000];
    assert_eq!(count_zero_crossings(&signs), 0);
    let signs = vec![SampleSign::Negative; 1000];
    assert_eq!(count_zero_crossings(&signs), 0);
}

#[test]
fn alternating_signs_cross_every_pair() {
    let signs: Vec<SampleSign> = (0..1000)
        .map(|i| if i % 2 == 0 { SampleSign::NonNegative } else { SampleSign::Negative })
        .collect();
    assert_eq!(count_zero_crossings(&signs), 999);
}

#[test]
fn unordered_samples_do_not_cross() {
    let signs = vec![
        SampleSign::NonNegative,
        SampleSign::Unordered,
        SampleSign::Negative,
        SampleSign::NonNegative,
    ];
    assert_eq!(count_zero_crossings(&signs), 1);
    assert_eq!(count_zero_crossings(&[]), 0);
    assert_eq!(count_zero_crossings(&[SampleSign::Negative]), 0);
}

#[test]
fn analysis_window_sizes() {
    assert_eq!(analysis_window(128), AnalysisWindow { fft_size: 1024, start: 0, end: 128 });
    assert_eq!(analysis_window(1024), AnalysisWindow { fft_size: 1024, start: 0, end: 1024 });
    assert_eq!(analysis_window(1025), AnalysisWindow { fft_size: 2048, start: 0, end: 1025 });
    assert_eq!(analysis_window(4096), AnalysisWindow { fft_size: 4096, start: 0, end: 4096 });
    assert_eq!(analysis_window(16384), AnalysisWindow { fft_size: 16384, start: 0, end: 16384 });
    assert_eq!(
        analysis_window(100_000),
        AnalysisWindow { fft_size: 16384, start: 41808, end: 58192 }
    );
    assert_eq!(
        analysis_window(16385),
        AnalysisWindow { fft_size: 16384, start: 0, end: 16384 }
    );
    assert_eq!(analysis_window(0), AnalysisWindow { fft_size: 1024, start: 0, end: 0 });
}
