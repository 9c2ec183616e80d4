//! The configuration record of the pipeline and its validation.
//!
//! All quantities are plain integers. Ratios are fixed-point: gravity and the
//! low-frequency fading factor are in thousandths (1250 stands for 1.25), and
//! the normalisation exponent is in quarters (2 stands for 0.5).

use vstd::prelude::*;

verus! {

/// Options read by the consumer-facing half of the pipeline.
#[derive(Debug, Clone, Copy, PartialEq, Eq, Structural)]
pub struct Visual {
    /// Window size of one horizontal smoothing pass.
    pub smoothing_size: u32,
    /// Number of horizontal smoothing passes.
    pub smoothing_amount: u32,
    /// Highest displayed frequency in Hz.
    pub max_frequency: u32,
}

/// Options read before the spectral transform.
#[derive(Debug, Clone, Copy, PartialEq, Eq, Structural)]
pub struct Audio {
    /// Whether samples are tapered by a raised-cosine window before the
    /// transform.
    pub pre_fft_windowing: bool,
}

/// Options of the shaping and stabilization stages.
#[derive(Debug, Clone, Copy, PartialEq, Eq, Structural)]
pub struct Processing {
    /// Decay divisor in thousandths; at least 1000 (that is, at least 1.0).
    pub gravity: u32,
    /// Exponent of the bin redistribution, in quarters (at most 4, one whole).
    pub normalisation_factoring: u32,
    /// Lower edge of the favourite frequency band, in Hz.
    pub fav_frequency_range_low: u32,
    /// Upper edge of the favourite frequency band, in Hz.
    pub fav_frequency_range_high: u32,
    /// How often the favourite band's resolution is doubled (at most 4).
    pub fav_frequency_doubling: u16,
    /// Frequency in Hz below which low-frequency compensation applies.
    pub low_frequency_threshold: u32,
    /// How often the low band is interpolation-doubled.
    pub low_frequency_doubling: u16,
    /// Box-smoothing window applied inside the low band; 0 switches it off.
    pub low_frequency_smoothing: u32,
    /// Fade of the very lowest bins, in thousandths of full suppression.
    pub low_frequency_fading: u32,
    /// How many prior frames the history average blends.
    pub buffering: u32,
    /// How often the bar count is halved by pair merging.
    pub bar_reduction: u32,
    /// Samples consumed per transform.
    pub resolution: u32,
}

/// Immutable configuration of one pipeline instance.
#[derive(Debug, Clone, Copy, PartialEq, Eq, Structural)]
pub struct Config {
    pub visual: Visual,
    pub audio: Audio,
    pub processing: Processing,
}

pub open spec fn resolution_ok(c: Config) -> bool {
    &&& 32 <= c.processing.resolution <= 16384
    &&& c.processing.resolution % 2 == 0
}

pub open spec fn max_frequency_ok(c: Config) -> bool {
    100 <= c.visual.max_frequency <= 20000
}

pub open spec fn gravity_ok(c: Config) -> bool {
    c.processing.gravity >= 1000
}

pub open spec fn normalisation_ok(c: Config) -> bool {
    c.processing.normalisation_factoring <= 4
}

pub open spec fn fav_range_ok(c: Config) -> bool {
    &&& c.processing.fav_frequency_range_low <= c.processing.fav_frequency_range_high
    &&& c.processing.fav_frequency_range_high <= 20000
}

pub open spec fn fav_doubling_ok(c: Config) -> bool {
    c.processing.fav_frequency_doubling <= 4
}

pub open spec fn low_frequency_ok(c: Config) -> bool {
    &&& 2 * c.processing.low_frequency_threshold <= c.visual.max_frequency
    &&& c.processing.low_frequency_doubling <= 4
    &&& c.processing.low_frequency_smoothing <= 1024
    &&& c.processing.low_frequency_fading <= 1000
}

pub open spec fn buffering_ok(c: Config) -> bool {
    c.processing.buffering <= 100
}

pub open spec fn smoothing_ok(c: Config) -> bool {
    &&& 1 <= c.visual.smoothing_size <= 1024
    &&& c.visual.smoothing_amount <= 100
}

pub open spec fn bar_reduction_ok(c: Config) -> bool {
    c.processing.bar_reduction <= 32
}

/// A configuration a pipeline instance may be built from.
pub open spec fn valid_config(c: Config) -> bool {
    &&& resolution_ok(c)
    &&& max_frequency_ok(c)
    &&& gravity_ok(c)
    &&& normalisation_ok(c)
    &&& fav_range_ok(c)
    &&& fav_doubling_ok(c)
    &&& low_frequency_ok(c)
    &&& buffering_ok(c)
    &&& smoothing_ok(c)
    &&& bar_reduction_ok(c)
}

/// The first validation rule a rejected configuration breaks.
#[derive(Debug, Clone, Copy, PartialEq, Eq, Structural)]
pub enum ConfigError {
    BadResolution,
    BadMaxFrequency,
    BadGravity,
    BadNormalisation,
    BadFavouriteRange,
    BadFavouriteDoubling,
    BadLowFrequency,
    BadBuffering,
    BadSmoothing,
    BadBarReduction,
}

impl ConfigError {
    /// A short account of the broken rule, for the operator.
    pub fn message(&self) -> (m: &'static str) {
        match self {
            ConfigError::BadResolution => "resolution must be an even number between 32 and 16384",
            ConfigError::BadMaxFrequency => "max_frequency must be between 100 and 20000",
            ConfigError::BadGravity => "gravity must be at least 1.0 (1000 thousandths)",
            ConfigError::BadNormalisation => "normalisation_factoring must be at most 4 quarters",
            ConfigError::BadFavouriteRange => "fav_frequency_range must be ordered and end at most at 20000",
            ConfigError::BadFavouriteDoubling => "fav_frequency_doubling must be at most 4",
            ConfigError::BadLowFrequency => "low-frequency options out of range; the threshold may reach at most half of max_frequency",
            ConfigError::BadBuffering => "max value for buffering is 100",
            ConfigError::BadSmoothing => "smoothing_size must be between 1 and 1024 and smoothing_amount at most 100",
            ConfigError::BadBarReduction => "bar_reduction must be at most 32",
        }
    }
}

/// Validates a configuration: accepts exactly the configurations that
/// `valid_config` allows, and names the first rule a rejected one breaks.
pub fn check_config(config: Config) -> (r: Result<(), ConfigError>)
    ensures
        r is Ok <==> valid_config(config),
        r == Result::<(), ConfigError>::Err(ConfigError::BadResolution) <==> !resolution_ok(
            config,
        ),
        r == Result::<(), ConfigError>::Err(ConfigError::BadMaxFrequency) <==> resolution_ok(
            config,
        ) && !max_frequency_ok(config),
        r == Result::<(), ConfigError>::Err(ConfigError::BadGravity) <==> resolution_ok(config)
            && max_frequency_ok(config) && !gravity_ok(config),
        r == Result::<(), ConfigError>::Err(ConfigError::BadNormalisation) <==> resolution_ok(
            config,
        ) && max_frequency_ok(config) && gravity_ok(config) && !normalisation_ok(config),
        r == Result::<(), ConfigError>::Err(ConfigError::BadFavouriteRange) <==> resolution_ok(
            config,
        ) && max_frequency_ok(config) && gravity_ok(config) && normalisation_ok(config)
            && !fav_range_ok(config),
        r == Result::<(), ConfigError>::Err(ConfigError::BadFavouriteDoubling) <==> resolution_ok(
            config,
        ) && max_frequency_ok(config) && gravity_ok(config) && normalisation_ok(config)
            && fav_range_ok(config) && !fav_doubling_ok(config),
        r == Result::<(), ConfigError>::Err(ConfigError::BadLowFrequency) <==> resolution_ok(
            config,
        ) && max_frequency_ok(config) && gravity_ok(config) && normalisation_ok(config)
            && fav_range_ok(config) && fav_doubling_ok(config) && !low_frequency_ok(config),
        r == Result::<(), ConfigError>::Err(ConfigError::BadBuffering) <==> resolution_ok(config)
            && max_frequency_ok(config) && gravity_ok(config) && normalisation_ok(config)
            && fav_range_ok(config) && fav_doubling_ok(config) && low_frequency_ok(config)
            && !buffering_ok(config),
        r == Result::<(), ConfigError>::Err(ConfigError::BadSmoothing) <==> resolution_ok(config)
            && max_frequency_ok(config) && gravity_ok(config) && normalisation_ok(config)
            && fav_range_ok(config) && fav_doubling_ok(config) && low_frequency_ok(config)
            && buffering_ok(config) && !smoothing_ok(config),
        r == Result::<(), ConfigError>::Err(ConfigError::BadBarReduction) <==> resolution_ok(
            config,
        ) && max_frequency_ok(config) && gravity_ok(config) && normalisation_ok(config)
            && fav_range_ok(config) && fav_doubling_ok(config) && low_frequency_ok(config)
            && buffering_ok(config) && smoothing_ok(config) && !bar_reduction_ok(config),
{
    let p = &config.processing;
    let v = &config.visual;
    if p.resolution < 32 || p.resolution > 16384 || p.resolution % 2 != 0 {
        return Err(ConfigError::BadResolution);
    }
    if v.max_frequency < 100 || v.max_frequency > 20000 {
        return Err(ConfigError::BadMaxFrequency);
    }
    if p.gravity < 1000 {
        return Err(ConfigError::BadGravity);
    }
    if p.normalisation_factoring > 4 {
        return Err(ConfigError::BadNormalisation);
    }
    if p.fav_frequency_range_low > p.fav_frequency_range_high || p.fav_frequency_range_high
        > 20000 {
        return Err(ConfigError::BadFavouriteRange);
    }
    if p.fav_frequency_doubling > 4 {
        return Err(ConfigError::BadFavouriteDoubling);
    }
    if p.low_frequency_threshold > v.max_frequency / 2 || p.low_frequency_doubling > 4
        || p.low_frequency_smoothing > 1024 || p.low_frequency_fading > 1000 {
        return Err(ConfigError::BadLowFrequency);
    }
    if p.buffering > 100 {
        return Err(ConfigError::BadBuffering);
    }
    if v.smoothing_size < 1 || v.smoothing_size > 1024 || v.smoothing_amount > 100 {
        return Err(ConfigError::BadSmoothing);
    }
    if p.bar_reduction > 32 {
        return Err(ConfigError::BadBarReduction);
    }
    Ok(())
}

impl Default for Config {
    /// The built-in configuration: 2048-sample transforms, windowing on, the
    /// full displayable band, mild shaping and no low-frequency compensation.
    fn default() -> (c: Config)
        ensures
            valid_config(c),
            c.processing.resolution == 2048,
            c.processing.gravity == 1000,
            c.processing.normalisation_factoring == 2,
            c.processing.fav_frequency_range_low == 40,
            c.processing.fav_frequency_range_high == 3500,
            c.processing.fav_frequency_doubling == 2,
            c.processing.low_frequency_threshold == 0,
            c.processing.low_frequency_doubling == 0,
            c.processing.low_frequency_smoothing == 0,
            c.processing.low_frequency_fading == 0,
            c.processing.buffering == 25,
            c.processing.bar_reduction == 2,
            c.visual.smoothing_size == 10,
            c.visual.smoothing_amount == 3,
            c.visual.max_frequency == 20000,
            c.audio.pre_fft_windowing == true,
    {
        Config {
            visual: Visual { smoothing_size: 10, smoothing_amount: 3, max_frequency: 20000 },
            audio: Audio { pre_fft_windowing: true },
            processing: Processing {
                gravity: 1000,
                normalisation_factoring: 2,
                fav_frequency_range_low: 40,
                fav_frequency_range_high: 3500,
                fav_frequency_doubling: 2,
                low_frequency_threshold: 0,
                low_frequency_doubling: 0,
                low_frequency_smoothing: 0,
                low_frequency_fading: 0,
                buffering: 25,
                bar_reduction: 2,
                resolution: 2048,
            },
        }
    }
}

} // verus!
