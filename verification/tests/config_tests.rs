use audiovis::audio::AudioDevice;
use audiovis::config::{check_config, Config, ConfigError};

#[test]
fn default_config_is_valid() {
    let c = Config::default();
    assert!(check_config(c).is_ok());
    assert_eq!(c.processing.resolution, 2048);
    assert_eq!(c.processing.gravity, 1000);
    assert_eq!(c.visual.max_frequency, 20000);
}

#[test]
fn rejects_bad_resolution() {
    let mut c = Config::default();
    c.processing.resolution = 31;
    assert_eq!(check_config(c), Err(ConfigError::BadResolution));
    c.processing.resolution = 2049;
    assert_eq!(check_config(c), Err(ConfigError::BadResolution));
    c.processing.resolution = 20000;
    assert_eq!(check_config(c), Err(ConfigError::BadResolution));
}

#[test]
fn rejects_bad_max_frequency() {
    let mut c = Config::default();
    c.visual.max_frequency = 99;
    assert_eq!(check_config(c), Err(ConfigError::BadMaxFrequency));
    c.visual.max_frequency = 20001;
    assert_eq!(check_config(c), Err(ConfigError::BadMaxFrequency));
}

#[test]
fn rejects_bad_gravity() {
    let mut c = Config::default();
    c.processing.gravity = 999;
    assert_eq!(check_config(c), Err(ConfigError::BadGravity));
    c.processing.gravity = 1250;
    assert!(check_config(c).is_ok());
}

#[test]
fn rejects_bad_normalisation() {
    let mut c = Config::default();
    c.processing.normalisation_factoring = 5;
    assert_eq!(check_config(c), Err(ConfigError::BadNormalisation));
}

#[test]
fn rejects_bad_favourite_range() {
    let mut c = Config::default();
    c.processing.fav_frequency_range_low = 300;
    c.processing.fav_frequency_range_high = 200;
    assert_eq!(check_config(c), Err(ConfigError::BadFavouriteRange));
    c.processing.fav_frequency_range_low = 100;
    c.processing.fav_frequency_range_high = 20001;
    assert_eq!(check_config(c), Err(ConfigError::BadFavouriteRange));
}

#[test]
fn rejects_bad_favourite_doubling() {
    let mut c = Config::default();
    c.processing.fav_frequency_doubling = 5;
    assert_eq!(check_config(c), Err(ConfigError::BadFavouriteDoubling));
}

#[test]
fn rejects_low_frequency_threshold_above_half_of_max_frequency() {
    let mut c = Config::default();
    c.processing.low_frequency_threshold = 10001;
    assert_eq!(check_config(c), Err(ConfigError::BadLowFrequency));
    c.processing.low_frequency_threshold = 10000;
    assert!(check_config(c).is_ok());
    c.processing.low_frequency_threshold = 0;
    c.processing.low_frequency_fading = 1001;
    assert_eq!(check_config(c), Err(ConfigError::BadLowFrequency));
}

#[test]
fn rejects_bad_buffering() {
    let mut c = Config::default();
    c.processing.buffering = 101;
    assert_eq!(check_config(c), Err(ConfigError::BadBuffering));
}

#[test]
fn rejects_bad_smoothing() {
    let mut c = Config::default();
    c.visual.smoothing_size = 0;
    assert_eq!(check_config(c), Err(ConfigError::BadSmoothing));
    c.visual.smoothing_size = 10;
    c.visual.smoothing_amount = 101;
    assert_eq!(check_config(c), Err(ConfigError::BadSmoothing));
}

#[test]
fn rejects_bad_bar_reduction() {
    let mut c = Config::default();
    c.processing.bar_reduction = 33;
    assert_eq!(check_config(c), Err(ConfigError::BadBarReduction));
}

#[test]
fn error_messages_name_the_rule() {
    let mut c = Config::default();
    c.processing.gravity = 0;
    let e = check_config(c).unwrap_err();
    assert!(e.message().contains("gravity"));
    assert!(!ConfigError::BadBuffering.message().is_empty());
}

#[test]
fn audio_device_selection_is_plain_data() {
    let input = AudioDevice::Input(0);
    let output = AudioDevice::Output(0);
    assert_ne!(input, output);
    assert_eq!(input, AudioDevice::Input(0));
    match output {
        AudioDevice::Output(i) => assert_eq!(i, 0),
        AudioDevice::Input(_) => unreachable!(),
    }
}
