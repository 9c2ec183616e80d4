use audiovis::bridge::Event;
use audiovis::config::Config;
use audiovis::frame::CycleError;
use audiovis::pipeline::Pipeline;

fn sine_chunk(n: usize, bin: usize) -> Vec<i64> {
    (0..n)
        .map(|j| {
            (f64::sin(2.0 * std::f64::consts::PI * (bin as f64) * (j as f64) / (n as f64))
                * 60000.0) as i64
        })
        .collect()
}

#[test]
fn feed_accumulates_until_one_window_is_ready() {
    let c = Config::default();
    let mut p = Pipeline::new(&c);
    let chunk = sine_chunk(2048, 100);

    assert_eq!(p.feed(chunk[..1000].to_vec()), 0);
    assert!(p.bridge.query().is_empty());

    assert_eq!(p.feed(chunk[1000..].to_vec()), 1);
    let frame = p.bridge.query();
    assert!(!frame.is_empty());
}

#[test]
fn feed_processes_multiple_windows_at_once() {
    let c = Config::default();
    let mut p = Pipeline::new(&c);
    let mut chunk = sine_chunk(2048, 50);
    chunk.extend(sine_chunk(2048, 50));
    chunk.extend(sine_chunk(2048, 50)[..100].to_vec());
    assert_eq!(p.feed(chunk), 2);
    assert!(!p.bridge.query().is_empty());
}

#[test]
fn published_frames_keep_a_stable_bar_count() {
    let c = Config::default();
    let mut p = Pipeline::new(&c);
    assert_eq!(p.feed(sine_chunk(2048, 100)), 1);
    let first_len = p.bridge.query().len();
    assert!(first_len > 0);
    assert_eq!(p.feed(sine_chunk(2048, 30)), 1);
    assert_eq!(p.bridge.query().len(), first_len);
    assert_eq!(p.feed(vec![0i64; 2048]), 1);
    assert_eq!(p.bridge.query().len(), first_len);
}

#[test]
fn process_cycle_rejects_wrong_window_length() {
    let c = Config::default();
    let mut p = Pipeline::new(&c);
    assert_eq!(
        p.process_cycle(vec![0i64; 10]),
        Err(CycleError::MismatchedBuffer)
    );
    assert!(p.bridge.query().is_empty());
}

#[test]
fn events_drive_the_control_loop() {
    let c = Config::default();
    let mut p = Pipeline::new(&c);

    let early = p.handle_event(Event::Consume).unwrap();
    assert!(early.is_empty());

    assert!(p.handle_event(Event::Push(sine_chunk(2048, 100))).is_none());
    let frame = p.handle_event(Event::Consume).unwrap();
    assert!(!frame.is_empty());
    assert!(frame.iter().any(|&v| v > 0));
}

#[test]
fn silence_publishes_an_all_zero_frame() {
    let c = Config::default();
    let mut p = Pipeline::new(&c);
    assert_eq!(p.feed(vec![0i64; 2048]), 1);
    let frame = p.bridge.query();
    assert!(!frame.is_empty());
    assert!(frame.iter().all(|&v| v == 0));
}

#[test]
fn tiny_resolution_with_narrow_band_skips_cycles() {
    let mut c = Config::default();
    c.processing.resolution = 32;
    c.visual.max_frequency = 100;
    // 7 cropped bins cut to 100 Hz of 20 kHz leave nothing to shape
    let mut p = Pipeline::new(&c);
    assert_eq!(p.process_cycle(vec![0i64; 32]), Err(CycleError::EmptyFrame));
    assert!(p.bridge.query().is_empty());
}

#[test]
fn tiny_resolution_full_band_still_produces_bars() {
    let mut c = Config::default();
    c.processing.resolution = 32;
    c.processing.bar_reduction = 0;
    c.processing.fav_frequency_doubling = 0;
    let mut p = Pipeline::new(&c);
    assert_eq!(p.process_cycle(vec![1000i64; 32]), Ok(()));
    // half spectrum 16, cropped to 45.5%: 7 bins
    assert_eq!(p.bridge.query().len(), 7);
}

#[test]
fn cycle_errors_carry_messages() {
    assert!(CycleError::MismatchedBuffer.message().contains("resolution"));
    assert!(CycleError::EmptyFrame.message().contains("empty"));
}
