use audiovis::config::Config;
use audiovis::stabilizer::{apply_gravity, smooth_buffer, smooth_horizontal, TemporalStabilizer};

fn stabilizer(gravity: u32, buffering: u32, smoothing_size: u32, smoothing_amount: u32)
    -> TemporalStabilizer {
    let mut c = Config::default();
    c.processing.gravity = gravity;
    c.processing.buffering = buffering;
    c.visual.smoothing_size = smoothing_size;
    c.visual.smoothing_amount = smoothing_amount;
    TemporalStabilizer::new(&c)
}

#[test]
fn gravity_takes_maximum_then_decays() {
    let out = apply_gravity(&vec![1000u64, 0], &vec![500u64, 800], 1250);
    // max(1000,500)/1.25 = 800; max(0,800)/1.25 = 640
    assert_eq!(out, vec![800, 640]);
}

#[test]
fn gravity_pads_the_shorter_frame_with_zeros() {
    let out = apply_gravity(&vec![1000u64], &vec![500u64, 800, 100], 1000);
    assert_eq!(out, vec![1000, 800, 100]);
}

#[test]
fn impulse_decays_strictly_and_never_below_zero() {
    let mut stab = stabilizer(1250, 0, 1, 0);
    let first = stab.stabilize(vec![10000u64, 0, 0]);
    // gravity 1.25 against an all-zero prior state
    assert_eq!(first, vec![8000, 0, 0]);
    let mut previous = first[0];
    for _ in 0..40 {
        let out = stab.stabilize(vec![0u64, 0, 0]);
        if previous > 0 {
            assert!(out[0] < previous, "no strict decay at {previous}");
        } else {
            assert_eq!(out[0], 0);
        }
        previous = out[0];
    }
    assert_eq!(previous, 0);
}

#[test]
fn two_identical_frames_converge_to_frame_over_gravity() {
    // gravity 1.25, no smoothing, no history averaging, all-zero prior state
    let mut stab = stabilizer(1250, 0, 1, 0);
    let frame = vec![1000u64, 500, 250000];
    let first = stab.stabilize(frame.clone());
    let second = stab.stabilize(frame.clone());
    let expected: Vec<u64> = frame.iter().map(|&v| v * 1000 / 1250).collect();
    assert_eq!(first, expected);
    assert_eq!(second, expected);
}

#[test]
fn history_average_weights_recent_frames_more() {
    let out = smooth_buffer(&vec![vec![100u64], vec![400u64]]);
    // weights 1 and 2: (100 + 800) / 3 = 300
    assert_eq!(out, vec![300]);
}

#[test]
fn history_average_of_single_frame_is_identity() {
    let out = smooth_buffer(&vec![vec![123u64, 456]]);
    assert_eq!(out, vec![123, 456]);
}

#[test]
fn horizontal_smoothing_averages_forward_windows() {
    let out = smooth_horizontal(&vec![0u64, 300, 600], 2, 1);
    assert_eq!(out, vec![150, 450, 600]);
}

#[test]
fn horizontal_smoothing_zero_passes_is_identity() {
    let out = smooth_horizontal(&vec![7u64, 8, 9], 3, 0);
    assert_eq!(out, vec![7, 8, 9]);
}

#[test]
fn history_depth_is_respected() {
    let mut stab = stabilizer(1000, 2, 1, 0);
    // gravity 1.0 and depth 2: the second call averages both frames
    let _ = stab.stabilize(vec![300u64]);
    let second = stab.stabilize(vec![600u64]);
    // weighted average (300*1 + 600*2) / 3 = 500; max(500, prior 300) = 500
    assert_eq!(second, vec![500]);
}
