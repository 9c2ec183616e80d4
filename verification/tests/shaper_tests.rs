use audiovis::config::Config;
use audiovis::fixed::FP_ONE;
use audiovis::frame::CycleError;
use audiovis::shaper::{
    favourite_emphasis, low_compensation, redistribute, scale_loudness, FrequencyShaper,
};

#[test]
fn redistribution_keeps_flat_input_flat() {
    for q in 0..=4u32 {
        let flat = vec![700u64; 64];
        let out = redistribute(&flat, q);
        assert_eq!(out.len(), 64);
        assert!(
            out.iter().all(|&v| v == 700),
            "oscillation introduced at exponent {q}/4: {out:?}"
        );
    }
}

#[test]
fn redistribution_keeps_length_and_endpoints() {
    let input: Vec<u64> = (0..100u64).map(|i| i * 10).collect();
    let out = redistribute(&input, 2);
    assert_eq!(out.len(), 100);
    // bin 0 maps to slot 0 and the last bin to the last slot
    assert_eq!(out[0], 0);
    assert_eq!(out[99], 990);
}

#[test]
fn loudness_scaling_keeps_last_bin_and_damps_first() {
    let input = vec![10000u64; 32];
    let out = scale_loudness(&input);
    assert_eq!(out.len(), 32);
    // the last bin's weight is (32/32)^(3/4) = 1.0
    assert_eq!(out[31], 10000);
    // the first bin's weight is (1/32)^(3/4), far below 1.0
    assert!(out[0] < 1000, "first bin {}", out[0]);
    assert!(out[0] <= out[31]);
}

#[test]
fn favourite_emphasis_doubles_the_whole_band_with_midpoints() {
    // band edges at 0 and 20000 Hz cover the whole frame; one pass over
    // 4 bins inserts 3 midpoints, and in a segment this short the fade
    // window is one slot wide, so every insertion is the plain average.
    let input = vec![0u64, 100, 200, 300];
    let out = favourite_emphasis(input, 0, 20000, 1);
    assert_eq!(out, vec![0, 50, 100, 150, 200, 250, 300]);
}

#[test]
fn favourite_emphasis_zero_doubling_is_identity() {
    let input = vec![5u64, 6, 7];
    let out = favourite_emphasis(input.clone(), 40, 3500, 0);
    assert_eq!(out, input);
}

#[test]
fn low_compensation_off_when_threshold_zero() {
    let input: Vec<u64> = (0..50u64).collect();
    let out = low_compensation(input.clone(), 0, 20000, 2, 4, 500);
    assert_eq!(out, input);
}

#[test]
fn low_compensation_grows_only_the_low_band() {
    let input = vec![1000u64; 100];
    // threshold 5000 of 20000 Hz: the first quarter of the frame doubles once
    let out = low_compensation(input, 5000, 20000, 1, 0, 0);
    // band edge 25: 24 insertions
    assert_eq!(out.len(), 124);
    assert!(out.iter().all(|&v| v == 1000));
}

#[test]
fn low_fading_damps_the_lowest_bins() {
    let input = vec![1000u64; 100];
    let out = low_compensation(input, 5000, 20000, 0, 0, 1000);
    assert_eq!(out.len(), 100);
    // full fading: bin 0 scaled by (1000 - 1000*25/25)/1000 = 0
    assert_eq!(out[0], 0);
    // bins past the band are untouched
    assert_eq!(out[99], 1000);
    assert!(out[1] <= out[24]);
}

#[test]
fn shaper_rejects_empty_frame() {
    let c = Config::default();
    let shaper = FrequencyShaper::new(&c);
    assert_eq!(shaper.shape(Vec::new()), Err(CycleError::EmptyFrame));
}

#[test]
fn shaper_output_is_never_empty_for_nonempty_input() {
    let c = Config::default();
    let shaper = FrequencyShaper::new(&c);
    let out = shaper.shape(vec![(FP_ONE as u64); 465]).unwrap();
    assert!(!out.is_empty());
}
