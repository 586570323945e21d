//! Which metrics are computed, and the checks on that choice.

use vstd::prelude::*;
use crate::text::chars_of;

verus! {

/// Basic metric toggles.
#[derive(Debug, Clone, Copy, PartialEq, Eq)]
pub struct BasicMetrics {
    /// Compute RMS energy.
    pub rms: bool,
    /// Compute zero-crossing rate.
    pub zcr: bool,
    /// Compute spectral centroid.
    pub spectral_centroid: bool,
    /// Compute spectral bandwidth.
    pub spectral_bandwidth: bool,
}

/// Extended metric toggles.
#[derive(Debug, Clone, Copy, PartialEq, Eq)]
pub struct ExtendedMetrics {
    /// Compute spectral rolloff.
    pub spectral_rolloff: bool,
    /// Compute spectral flatness.
    pub spectral_flatness: bool,
    /// Compute crest factor.
    pub crest_factor: bool,
}

/// Configuration for which metrics to compute.
#[derive(Debug, Clone, Copy, PartialEq, Eq)]
pub struct MetricsConfig {
    /// Basic metrics (always available).
    pub basic: BasicMetrics,
    /// Extended metrics (require --extended or config).
    pub extended: ExtendedMetrics,
}

/// The metric selection of a run.
#[derive(Debug, Clone, Copy, PartialEq, Eq)]
pub struct Config {
    /// Metrics configuration.
    pub metrics: MetricsConfig,
}

/// Why a configuration is refused.
#[derive(Debug, Clone, Copy, PartialEq, Eq)]
pub enum ConfigError {
    /// Every metric is switched off.
    NoMetricEnabled,
}

impl BasicMetrics {
    /// At least one basic metric is switched on.
    pub open spec fn any(self) -> bool {
        self.rms || self.zcr || self.spectral_centroid || self.spectral_bandwidth
    }
}

impl ExtendedMetrics {
    /// At least one extended metric is switched on.
    pub open spec fn any(self) -> bool {
        self.spectral_rolloff || self.spectral_flatness || self.crest_factor
    }

    /// Every extended metric is switched on.
    pub open spec fn all(self) -> bool {
        self.spectral_rolloff && self.spectral_flatness && self.crest_factor
    }
}

impl Config {
    /// At least one metric, basic or extended, is switched on.
    pub open spec fn any_metric_enabled(self) -> bool {
        self.metrics.basic.any() || self.metrics.extended.any()
    }

    /// This configuration after the `--extended` flag, given or not.
    pub open spec fn extended_by(self, extended: bool) -> Config {
        if extended {
            Config {
                metrics: MetricsConfig {
                    basic: self.metrics.basic,
                    extended: ExtendedMetrics {
                        spectral_rolloff: true,
                        spectral_flatness: true,
                        crest_factor: true,
                    },
                },
            }
        } else {
            self
        }
    }
}

impl Default for BasicMetrics {
    /// All basic metrics are on by default.
    fn default() -> (r: Self)
        ensures
            r.rms && r.zcr && r.spectral_centroid && r.spectral_bandwidth,
    {
        BasicMetrics { rms: true, zcr: true, spectral_centroid: true, spectral_bandwidth: true }
    }
}

impl Default for ExtendedMetrics {
    /// All extended metrics are off by default.
    fn default() -> (r: Self)
        ensures
            !r.spectral_rolloff && !r.spectral_flatness && !r.crest_factor,
    {
        ExtendedMetrics { spectral_rolloff: false, spectral_flatness: false, crest_factor: false }
    }
}

impl Default for MetricsConfig {
    /// Basic metrics on, extended metrics off.
    fn default() -> (r: Self)
        ensures
            r.basic.rms && r.basic.zcr && r.basic.spectral_centroid && r.basic.spectral_bandwidth,
            !r.extended.spectral_rolloff && !r.extended.spectral_flatness
                && !r.extended.crest_factor,
    {
        MetricsConfig { basic: BasicMetrics::default(), extended: ExtendedMetrics::default() }
    }
}

impl Default for Config {
    /// The configuration used when no file gives one.
    fn default() -> (r: Self)
        ensures
            r.metrics.basic.rms && r.metrics.basic.zcr && r.metrics.basic.spectral_centroid
                && r.metrics.basic.spectral_bandwidth,
            !r.metrics.extended.spectral_rolloff && !r.metrics.extended.spectral_flatness
                && !r.metrics.extended.crest_factor,
    {
        Config { metrics: MetricsConfig::default() }
    }
}

impl ConfigError {
    /// The text shown to the user for this error.
    pub fn message(&self) -> (s: &'static str)
        ensures
            s@ == "At least one metric must be enabled"@,
    {
        "At least one metric must be enabled"
    }
}

impl Config {
    /// Apply the `--extended` flag: when it is given, every extended metric
    /// is switched on; nothing else changes.
    pub fn with_extended(self, extended: bool) -> (r: Config)
        ensures
            r == self.extended_by(extended),
    {
        let mut c = self;
        if extended {
            c.metrics.extended.spectral_rolloff = true;
            c.metrics.extended.spectral_flatness = true;
            c.metrics.extended.crest_factor = true;
        }
        c
    }

    /// Check that at least one metric is enabled.
    pub fn validate(&self) -> (r: Result<(), ConfigError>)
        ensures
            r is Ok <==> self.any_metric_enabled(),
            r is Err ==> r == Err::<(), ConfigError>(ConfigError::NoMetricEnabled),
    {
        let basic = &self.metrics.basic;
        let extended = &self.metrics.extended;
        let any_enabled = basic.rms || basic.zcr || basic.spectral_centroid
            || basic.spectral_bandwidth || extended.spectral_rolloff
            || extended.spectral_flatness || extended.crest_factor;
        if !any_enabled {
            return Err(ConfigError::NoMetricEnabled);
        }
        Ok(())
    }

    /// Check if any extended metrics are enabled.
    pub fn has_extended(&self) -> (r: bool)
        ensures
            r == self.metrics.extended.any(),
    {
        let ext = &self.metrics.extended;
        ext.spectral_rolloff || ext.spectral_flatness || ext.crest_factor
    }
}

/// With `--extended`, a configuration always passes validation and has
/// extended metrics, whatever its file switched off.
pub proof fn lemma_extended_config_valid(c: Config)
    ensures
        c.extended_by(true).any_metric_enabled(),
        c.extended_by(true).metrics.extended.any(),
        c.extended_by(true).metrics.extended.all(),
        c.extended_by(true).metrics.basic == c.metrics.basic,
{
}

/// Applying `--extended` twice is applying it once; without the flag the
/// configuration is left as it is.
pub proof fn lemma_extended_idempotent(c: Config, flag: bool)
    ensures
        c.extended_by(flag).extended_by(flag) == c.extended_by(flag),
        c.extended_by(false) == c,
{
}

/// The characters that `char::is_whitespace` accepts: those with the
/// Unicode `White_Space` property.
pub open spec fn is_white_space(c: char) -> bool {
    let u = c as u32;
    ||| 0x09 <= u <= 0x0D
    ||| u == 0x20
    ||| u == 0x85
    ||| u == 0xA0
    ||| u == 0x1680
    ||| 0x2000 <= u <= 0x200A
    ||| u == 0x2028
    ||| u == 0x2029
    ||| u == 0x202F
    ||| u == 0x205F
    ||| u == 0x3000
}

/// A configuration text holds nothing but white space.
pub open spec fn is_blank(text: Seq<char>) -> bool {
    forall|i: int| 0 <= i < text.len() ==> is_white_space(#[trigger] text[i])
}

/// Text made only of spaces, tabs, line feeds, vertical tabs, form feeds
/// and carriage returns is blank.
pub proof fn lemma_ascii_white_space_is_blank(text: Seq<char>)
    requires
        forall|i: int|
            0 <= i < text.len() ==> {
                let c = #[trigger] text[i];
                c == ' ' || c == '\t' || c == '\n' || c == '\r' || c == '\x0B' || c == '\x0C'
            },
    ensures
        is_blank(text),
{
    assert forall|i: int| 0 <= i < text.len() implies is_white_space(#[trigger] text[i]) by {
        let c = text[i];
        assert(c == ' ' || c == '\t' || c == '\n' || c == '\r' || c == '\x0B' || c == '\x0C');
    }
}

/// Text holding any visible ASCII character (`!` to `~`, a `#` comment
/// included) is not blank: it is parsed, not replaced by the defaults.
pub proof fn lemma_visible_ascii_not_blank(text: Seq<char>, i: int)
    requires
        0 <= i < text.len(),
        0x21 <= text[i] as u32 <= 0x7E,
    ensures
        !is_blank(text),
{
    assert(!is_white_space(text[i]));
}

/// A text is blank exactly when both of its parts are.
pub proof fn lemma_blank_concat(a: Seq<char>, b: Seq<char>)
    ensures
        is_blank(a + b) == (is_blank(a) && is_blank(b)),
{
    let t = a + b;
    if is_blank(t) {
        assert forall|i: int| 0 <= i < a.len() implies is_white_space(#[trigger] a[i]) by {
            assert(t[i] == a[i]);
        }
        assert forall|i: int| 0 <= i < b.len() implies is_white_space(#[trigger] b[i]) by {
            assert(t[a.len() + i] == b[i]);
        }
    }
    if is_blank(a) && is_blank(b) {
        assert forall|i: int| 0 <= i < t.len() implies is_white_space(#[trigger] t[i]) by {
            if i < a.len() {
                assert(t[i] == a[i]);
            } else {
                assert(t[i] == b[i - a.len()]);
            }
        }
    }
}

/// Decide whether `c` is white space.
pub fn white_space(c: char) -> (r: bool)
    ensures
        r == is_white_space(c),
{
    let u = c as u32;
    (0x09 <= u && u <= 0x0D) || u == 0x20 || u == 0x85 || u == 0xA0 || u == 0x1680
        || (0x2000 <= u && u <= 0x200A) || u == 0x2028 || u == 0x2029 || u == 0x202F
        || u == 0x205F || u == 0x3000
}

impl Config {
    /// A configuration file whose text is empty once trimmed gives the
    /// default configuration: this decides whether the text is blank.
    pub fn is_blank_source(content: &str) -> (r: bool)
        ensures
            r == is_blank(content@),
    {
        let chars = chars_of(content);
        let mut i: usize = 0;
        while i < chars.len()
            invariant
                chars@ == content@,
                i <= chars.len(),
                forall|k: int| 0 <= k < i ==> is_white_space(#[trigger] chars@[k]),
            decreases chars.len() - i,
        {
            if !white_space(chars[i]) {
                return false;
            }
            i = i + 1;
        }
        true
    }
}

} // verus!
