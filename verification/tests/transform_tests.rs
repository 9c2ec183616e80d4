use audiovis::frame::CycleError;
use audiovis::transform::SpectralTransform;

fn sine_buffer(n: usize, bin: usize, amplitude: f64) -> Vec<i64> {
    (0..n)
        .map(|j| {
            (f64::sin(2.0 * std::f64::consts::PI * (bin as f64) * (j as f64) / (n as f64))
                * amplitude) as i64
        })
        .collect()
}

#[test]
fn zero_buffer_yields_zero_frame_of_expected_length() {
    let t = SpectralTransform::new(2048, true, 20000);
    let out = t.process(&vec![0i64; 2048]).unwrap();
    // half spectrum 1024, cropped to 45.5%: 465, kept whole at 20 kHz
    assert_eq!(out.len(), 465);
    assert!(out.iter().all(|&v| v == 0));

    let t2 = SpectralTransform::new(2048, false, 20000);
    let out2 = t2.process(&vec![0i64; 2048]).unwrap();
    assert_eq!(out2.len(), 465);
    assert!(out2.iter().all(|&v| v == 0));
}

#[test]
fn output_length_grows_with_max_frequency() {
    let zeros = vec![0i64; 2048];
    let mut previous_len = 0usize;
    for maxf in [100u32, 2500, 5000, 10000, 15000, 20000] {
        let t = SpectralTransform::new(2048, false, maxf);
        let out = t.process(&zeros).unwrap();
        assert!(out.len() >= previous_len, "length shrank at {maxf} Hz");
        previous_len = out.len();
    }
    let t = SpectralTransform::new(2048, false, 10000);
    assert_eq!(t.process(&zeros).unwrap().len(), 232);
}

#[test]
fn pure_sine_peaks_at_its_bin_without_windowing() {
    let t = SpectralTransform::new(2048, false, 20000);
    let samples = sine_buffer(2048, 100, 60000.0);
    let out = t.process(&samples).unwrap();
    assert_eq!(out.len(), 465);
    let peak = out
        .iter()
        .enumerate()
        .max_by_key(|(_, &v)| v)
        .map(|(k, _)| k)
        .unwrap();
    assert_eq!(peak, 100);
    assert!(out[100] > 0);
}

#[test]
fn pure_sine_peaks_near_its_bin_with_windowing() {
    let t = SpectralTransform::new(2048, true, 20000);
    let samples = sine_buffer(2048, 100, 60000.0);
    let out = t.process(&samples).unwrap();
    let peak = out
        .iter()
        .enumerate()
        .max_by_key(|(_, &v)| v)
        .map(|(k, _)| k)
        .unwrap();
    assert!((99..=101).contains(&peak), "peak at {peak}");
}

#[test]
fn mismatched_buffer_is_rejected() {
    let t = SpectralTransform::new(2048, true, 20000);
    assert_eq!(
        t.process(&vec![0i64; 100]),
        Err(CycleError::MismatchedBuffer)
    );
    assert_eq!(
        t.process(&vec![0i64; 2049]),
        Err(CycleError::MismatchedBuffer)
    );
}

#[test]
fn magnitudes_scale_with_amplitude() {
    let t = SpectralTransform::new(512, false, 20000);
    let loud = t.process(&sine_buffer(512, 20, 60000.0)).unwrap();
    let quiet = t.process(&sine_buffer(512, 20, 6000.0)).unwrap();
    assert!(loud[20] > 5 * quiet[20]);
    assert!(quiet[20] > 0);
}
