use isis::analyzer::{Analyzer, Event};

const FRAME_SIZE: usize = 256;
const SAMPLE_RATE: u32 = 1000;

// With these settings one frame is 256 samples, each sub-block holds one
// sample, and the silence threshold is floor(0.618 * 1000) = 618 samples.

fn frame_of(value: i64) -> Vec<i64> {
    vec![value; FRAME_SIZE]
}

#[test]
fn silence_to_reset_timing() {
    let mut a = Analyzer::new(FRAME_SIZE, SAMPLE_RATE);
    let silent = frame_of(0);
    // 256 silent samples: below the 618-sample threshold, no events.
    assert!(a.process_frame(&silent, 0).is_empty());
    // 512 silent samples: still below, no events.
    assert!(a.process_frame(&silent, 0).is_empty());
    // 768 silent samples: the threshold is crossed, exactly one Reset.
    let events = a.process_frame(&silent, 0);
    assert_eq!(events.len(), 1);
    assert_eq!(events[0], Event::Reset);
}

#[test]
fn reset_is_edge_triggered() {
    let mut a = Analyzer::new(FRAME_SIZE, SAMPLE_RATE);
    let silent = frame_of(0);
    a.process_frame(&silent, 0);
    a.process_frame(&silent, 0);
    let events = a.process_frame(&silent, 0);
    assert_eq!(events, vec![Event::Reset]);
    // Further silent frames in the Silent state emit nothing at all.
    for _ in 0..5 {
        assert!(a.process_frame(&silent, 0).is_empty());
    }
}

#[test]
fn volume_full_scale_at_rms_03() {
    let mut a = Analyzer::new(FRAME_SIZE, SAMPLE_RATE);
    // Every sample at 0.3 of full scale: the smoothed RMS is 3000 and the
    // volume saturates at 1.0 (10_000 fixed-point).
    let events = a.process_frame(&frame_of(3000), 0);
    assert_eq!(events, vec![Event::Volume { average: 10_000 }]);
}

#[test]
fn volume_half_at_rms_01() {
    let mut a = Analyzer::new(FRAME_SIZE, SAMPLE_RATE);
    // RMS 0.1 of full scale maps to volume 0.5.
    let events = a.process_frame(&frame_of(1000), 0);
    assert_eq!(events, vec![Event::Volume { average: 5_000 }]);
}

#[test]
fn no_volume_event_below_gate() {
    let mut a = Analyzer::new(FRAME_SIZE, SAMPLE_RATE);
    // RMS 0.0 is below the 0.01 gate: a silent frame, no volume event.
    let events = a.process_frame(&frame_of(0), 120_000);
    assert!(events.is_empty());
}

#[test]
fn accuracy_saturation() {
    let mut a = Analyzer::new(FRAME_SIZE, SAMPLE_RATE);
    let loud = frame_of(3000);
    // First tempo sample: accuracy is 0.25 (2500 of 10_000).
    let events = a.process_frame(&loud, 120_000);
    assert_eq!(events.len(), 2);
    assert_eq!(events[1], Event::Tempo { average: 120_000, accuracy: 2_500 });
    // Second and third samples: 0.5 and 0.75.
    let events = a.process_frame(&loud, 120_000);
    assert_eq!(events[1], Event::Tempo { average: 120_000, accuracy: 5_000 });
    let events = a.process_frame(&loud, 120_000);
    assert_eq!(events[1], Event::Tempo { average: 120_000, accuracy: 7_500 });
    // Fourth sample and beyond: saturated at 1.0.
    let events = a.process_frame(&loud, 120_000);
    assert_eq!(events[1], Event::Tempo { average: 120_000, accuracy: 10_000 });
    let events = a.process_frame(&loud, 120_000);
    assert_eq!(events[1], Event::Tempo { average: 120_000, accuracy: 10_000 });
}

#[test]
fn octave_correction_prefers_double() {
    let mut a = Analyzer::new(FRAME_SIZE, SAMPLE_RATE);
    let loud = frame_of(3000);
    // Establish a tempo average of 120 bpm.
    a.process_frame(&loud, 120_000);
    // A raw estimate of 61 bpm: candidates 61, 122 and 30.5 bpm; 122 is
    // closest to the average (distance 2 against 59 and 89.5).
    let events = a.process_frame(&loud, 61_000);
    // The window now holds {120, 122} bpm: average 121 bpm.
    assert_eq!(events[1], Event::Tempo { average: 121_000, accuracy: 5_000 });
}

#[test]
fn no_tempo_event_without_estimate() {
    let mut a = Analyzer::new(FRAME_SIZE, SAMPLE_RATE);
    let events = a.process_frame(&frame_of(3000), 0);
    assert_eq!(events.len(), 1);
    assert!(matches!(events[0], Event::Volume { .. }));
}

#[test]
fn reset_clears_tempo_history() {
    let mut a = Analyzer::new(FRAME_SIZE, SAMPLE_RATE);
    let loud = frame_of(3000);
    let silent = frame_of(0);
    a.process_frame(&loud, 120_000);
    // Feed silent frames until the smoothed RMS turns quiet and
    // the accumulated silence crosses the threshold.
    let mut saw_reset = false;
    for _ in 0..10 {
        let events = a.process_frame(&silent, 0);
        if events.contains(&Event::Reset) {
            assert_eq!(events, vec![Event::Reset]);
            saw_reset = true;
            break;
        }
    }
    assert!(saw_reset);
    // After the reset the tempo history is empty: the next estimate is
    // taken as-is, with no octave correction against the old 120 bpm.
    let events = a.process_frame(&loud, 61_000);
    assert_eq!(events[1], Event::Tempo { average: 61_000, accuracy: 2_500 });
}

#[test]
fn deep_silence_clears_rms_history() {
    let mut a = Analyzer::new(FRAME_SIZE, SAMPLE_RATE);
    let silent = frame_of(0);
    // Past the threshold the rms window is cleared at the start of every
    // frame, so the zeros seen during silence do not dilute the first
    // active frame: its smoothed RMS is the full 3000, volume 1.0.
    for _ in 0..4 {
        a.process_frame(&silent, 0);
    }
    let events = a.process_frame(&frame_of(3000), 0);
    assert_eq!(events, vec![Event::Volume { average: 10_000 }]);
}

#[test]
fn quiet_frames_dilute_rms_before_threshold() {
    let mut a = Analyzer::new(FRAME_SIZE, SAMPLE_RATE);
    // One loud frame then one quiet frame: the rms window now holds 256
    // values of 3000 and 256 of 0, so the smoothed RMS is 1500.
    a.process_frame(&frame_of(3000), 0);
    let events = a.process_frame(&frame_of(0), 0);
    // Still loud enough: the dip is smoothed through, volume 0.75.
    assert_eq!(events, vec![Event::Volume { average: 7_500 }]);
}
