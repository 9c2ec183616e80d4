use audiovis::reducer::{bar_reduction, reduce_buffer, reduce_to_target};

#[test]
fn bar_reduction_halves_by_averaging_pairs() {
    let mut frame = vec![2u64, 4, 6, 8];
    bar_reduction(&mut frame, 1);
    assert_eq!(frame, vec![3, 7]);
}

#[test]
fn bar_reduction_keeps_odd_trailing_bin() {
    let mut frame = vec![1u64, 3, 5];
    bar_reduction(&mut frame, 1);
    assert_eq!(frame, vec![2, 5]);
}

#[test]
fn bar_reduction_zero_is_identity() {
    let mut frame = vec![9u64, 8, 7];
    bar_reduction(&mut frame, 0);
    assert_eq!(frame, vec![9, 8, 7]);
}

#[test]
fn bar_reduction_never_grows_the_frame() {
    for k in 0..6u32 {
        let mut frame: Vec<u64> = (0..37u64).collect();
        let before = frame.len();
        bar_reduction(&mut frame, k);
        assert!(frame.len() <= before, "grew at {k} passes");
        assert!(!frame.is_empty());
    }
}

#[test]
fn reduce_to_target_hits_exact_target() {
    let frame: Vec<u64> = (0..10u64).collect();
    let out = reduce_to_target(frame, 5);
    // groups of two, each replaced by its mean
    assert_eq!(out, vec![0, 2, 4, 6, 8]);
}

#[test]
fn reduce_to_target_with_uneven_groups() {
    let frame = vec![10u64, 20, 30, 40, 50, 60, 70];
    let out = reduce_to_target(frame, 3);
    // group edges 0,2,4,7: means 15, 35, 60
    assert_eq!(out, vec![15, 35, 60]);
}

#[test]
fn reduce_to_target_identity_when_target_equals_length() {
    let frame = vec![4u64, 5, 6];
    assert_eq!(reduce_to_target(frame.clone(), 3), frame);
}

#[test]
fn reduce_to_target_unachievable_returns_input_unchanged() {
    let frame = vec![4u64, 5, 6];
    assert_eq!(reduce_to_target(frame.clone(), 7), frame);
}

#[test]
fn reduce_to_target_never_grows_length() {
    for target in 0..12usize {
        let frame: Vec<u64> = (0..8u64).collect();
        let out = reduce_to_target(frame, target);
        assert!(out.len() <= 8);
        if target <= 8 {
            assert_eq!(out.len(), target);
        }
    }
}

#[test]
fn reduce_buffer_thins_far_frames_only() {
    let mut frames = vec![
        vec![5u64, 1, 2, 9, 4, 4],
        vec![5u64, 1, 2, 9, 4, 4],
    ];
    // depth 0 gets no pass; depth 1 gets one pass at a drop factor of 10.0
    reduce_buffer(&mut frames, 100, 8);
    assert_eq!(frames[0], vec![5, 1, 2, 9, 4, 4]);
    // one pass: keep 5; max(1,2)=2 then 9; max(4,4)=4; nothing left
    assert_eq!(frames[1], vec![5, 2, 9, 4]);
}

#[test]
fn reduce_buffer_zero_drop_changes_nothing() {
    let mut frames = vec![vec![1u64, 2, 3], vec![4u64, 5, 6]];
    reduce_buffer(&mut frames, 0, 8);
    assert_eq!(frames, vec![vec![1, 2, 3], vec![4, 5, 6]]);
}
