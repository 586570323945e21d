use rank_wav_rs::config::{BasicMetrics, Config, ConfigError, ExtendedMetrics, MetricsConfig};

#[test]
fn test_default_config() {
    let config = Config::default();
    assert!(config.metrics.basic.rms);
    assert!(config.metrics.basic.zcr);
    assert!(!config.metrics.extended.spectral_rolloff);
    assert!(config.validate().is_ok());
}

#[test]
fn test_with_extended() {
    let config = Config::default().with_extended(true);
    assert!(config.metrics.extended.spectral_rolloff);
    assert!(config.metrics.extended.spectral_flatness);
    assert!(config.metrics.extended.crest_factor);
}

#[test]
fn test_has_extended() {
    let config = Config::default();
    assert!(!config.has_extended());

    let config = config.with_extended(true);
    assert!(config.has_extended());
}

fn all_disabled() -> Config {
    Config {
        metrics: MetricsConfig {
            basic: BasicMetrics {
                rms: false,
                zcr: false,
                spectral_centroid: false,
                spectral_bandwidth: false,
            },
            extended: ExtendedMetrics {
                spectral_rolloff: false,
                spectral_flatness: false,
                crest_factor: false,
            },
        },
    }
}

#[test]
fn validate_refuses_all_disabled() {
    let config = all_disabled();
    assert_eq!(config.validate(), Err(ConfigError::NoMetricEnabled));
    assert_eq!(ConfigError::NoMetricEnabled.message(), "At least one metric must be enabled");
    assert!(!config.has_extended());
}

#[test]
fn validate_accepts_one_metric() {
    let mut config = all_disabled();
    config.metrics.basic.spectral_bandwidth = true;
    assert!(config.validate().is_ok());
    let mut config = all_disabled();
    config.metrics.extended.crest_factor = true;
    assert!(config.validate().is_ok());
    assert!(config.has_extended());
    assert!(all_disabled().with_extended(true).validate().is_ok());
}

#[test]
fn with_extended_false_changes_nothing() {
    let config = Config::default();
    assert_eq!(config.with_extended(false), config);
    let mut partial = Config::default();
    partial.metrics.extended.spectral_flatness = true;
    partial.metrics.basic.rms = false;
    let after = partial.with_extended(true);
    assert_eq!(after.metrics.basic, partial.metrics.basic);
    assert!(after.metrics.extended.spectral_rolloff && after.metrics.extended.crest_factor);
}

#[test]
fn blank_sources_give_defaults() {
    assert!(Config::is_blank_source(""));
    assert!(Config::is_blank_source("  \n\t \r\n"));
    assert!(Config::is_blank_source("\u{00A0}\u{3000}\u{2028}"));
    assert!(!Config::is_blank_source("\n[metrics.basic]\nrms = false\n"));
    assert!(!Config::is_blank_source(" x "));
}
