use rustmith::capture::AudioCapture;
use rustmith::capture::CaptureCommand;
use rustmith::note::Note;
use rustmith::tuner::CorrelationResult;
use rustmith::tuner::DetectionOutcome;

#[test]
fn table_has_ninety_notes_in_strictly_ascending_frequency_order() {
    let notes = Note::make_test_frequencies();
    assert_eq!(90, notes.len());
    for w in notes.windows(2) {
        assert!(w[0].frequency_millihertz < w[1].frequency_millihertz);
    }
}

#[test]
fn table_starts_at_c2_with_quarter_tone_neighbours() {
    let notes = Note::make_test_frequencies();
    assert_eq!("C (a bit flat)", notes[0].name);
    assert_eq!(64472, notes[0].frequency_millihertz);
    assert_eq!("C", notes[1].name);
    assert_eq!(65410, notes[1].frequency_millihertz);
    assert_eq!("C (a bit sharp)", notes[2].name);
    assert_eq!(66361, notes[2].frequency_millihertz);
    assert_eq!("C#", notes[4].name);
    assert_eq!("A", notes[28].name);
    assert_eq!(110006, notes[28].frequency_millihertz);
}

#[test]
fn all_zero_window_is_inconclusive() {
    let probes = Note::make_test_frequencies();
    let result = CorrelationResult { frequency_amplitudes: vec![(0, 0); probes.len()] };
    assert!(matches!(result.classify(&probes), DetectionOutcome::Inconclusive));
}

#[test]
fn weak_peak_is_inconclusive() {
    let mut probes = Note::make_test_frequencies();
    probes.truncate(4);
    // magnitudes 0, 25, 25, 1: the peak is not ten times the mean
    let result = CorrelationResult { frequency_amplitudes: vec![(0, 0), (3, 4), (3, 4), (1, 0)] };
    assert!(matches!(result.classify(&probes), DetectionOutcome::Inconclusive));
}

#[test]
fn tie_between_equal_peaks_selects_the_lower_index() {
    let mut probes = Note::make_test_frequencies();
    probes.truncate(30);
    let mut amps: Vec<(i64, i64)> = vec![(0, 0); 30];
    amps[3] = (10, 0);
    amps[7] = (0, 10);
    let result = CorrelationResult { frequency_amplitudes: amps };
    match result.classify(&probes) {
        DetectionOutcome::Detected { index, note, confidence } => {
            assert_eq!(3, index);
            assert_eq!(probes[3].frequency_millihertz, note.frequency_millihertz);
            assert_eq!(100 * 30, confidence.num);
            assert_eq!(200, confidence.den);
        },
        DetectionOutcome::Inconclusive => panic!("expected a detection"),
    }
}

/// The correlation engine's formula, as the worker computes it: a direct
/// cosine sum, the same term for both components.
fn correlate(samples: &[f64], sample_rate: f64, probes: &[Note]) -> CorrelationResult {
    let scale_factor = 2.0 * std::f64::consts::PI / sample_rate;
    let fixed_point = 16384.0;
    let mut amps: Vec<(i64, i64)> = Vec::new();
    for probe in probes {
        let frequency = probe.frequency_millihertz as f64 / 1000.0;
        let mut re = 0.0f64;
        let mut im = 0.0f64;
        for (t, s) in samples.iter().enumerate() {
            re += s * (scale_factor * frequency * (t as f64)).cos();
            im += s * (scale_factor * frequency * (t as f64)).cos();
        }
        amps.push(((re * fixed_point) as i64, (im * fixed_point) as i64));
    }
    CorrelationResult { frequency_amplitudes: amps }
}

#[test]
fn pure_sinusoid_at_a_probe_frequency_is_detected() {
    let probes = Note::make_test_frequencies();
    let target = 46;
    let sample_rate = 44100.0;
    let f0 = probes[target].frequency_millihertz as f64 / 1000.0;
    let samples: Vec<f64> = (0..44100)
        .map(|t| (2.0 * std::f64::consts::PI * f0 * (t as f64) / sample_rate).cos())
        .collect();
    let result = correlate(&samples, sample_rate, &probes);
    match result.classify(&probes) {
        DetectionOutcome::Detected { index, note, confidence } => {
            assert_eq!(target, index);
            assert_eq!(probes[target].frequency_millihertz, note.frequency_millihertz);
            assert_eq!(probes[target].name, note.name);
            assert!(confidence.num > 10 * confidence.den);
        },
        DetectionOutcome::Inconclusive => panic!("expected a detection"),
    }
}

#[test]
fn capture_buffers_until_the_window_fills_then_cools_down() {
    let mut c = AudioCapture::new(44100);
    assert_eq!(4410, c.window_size);
    assert_eq!(CaptureCommand::Buffer, c.on_samples(1024));
    assert_eq!(CaptureCommand::Buffer, c.on_samples(1024));
    assert_eq!(CaptureCommand::Buffer, c.on_samples(1024));
    assert_eq!(CaptureCommand::Buffer, c.on_samples(1024));
    // 5120 samples exceed the 4410-sample window: dispatch and cool down
    assert_eq!(CaptureCommand::Dispatch, c.on_samples(1024));
    assert_eq!(CaptureCommand::Ignore, c.on_samples(1024));
    assert_eq!(0, c.buffered);
}

#[test]
fn capture_drops_a_window_while_a_correlation_is_outstanding() {
    let mut c = AudioCapture::new(8000);
    assert_eq!(CaptureCommand::Dispatch, c.on_samples(900));
    c.on_cooldown_elapsed();
    // the previous request has not been answered yet
    assert_eq!(CaptureCommand::Drop, c.on_samples(900));
    c.on_cooldown_elapsed();
    c.on_correlation_result();
    assert_eq!(CaptureCommand::Dispatch, c.on_samples(900));
}
