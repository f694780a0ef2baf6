use isis::idle::inhibiting_idle;
use isis::math::isqrt;
use isis::moving_average::BoundedMovingAverage;
use isis::sample::{amp_of_raw, bytes_to_amps, i32_from_le};
use isis::tempo::{accuracy_of, select_tempo};

#[test]
fn isqrt_small_values() {
    assert_eq!(isqrt(0), 0);
    assert_eq!(isqrt(1), 1);
    assert_eq!(isqrt(3), 1);
    assert_eq!(isqrt(4), 2);
    assert_eq!(isqrt(99), 9);
    assert_eq!(isqrt(100), 10);
    assert_eq!(isqrt(100_000_000), 10_000);
}

#[test]
fn isqrt_large_values() {
    assert_eq!(isqrt(u64::MAX), 4_294_967_295);
    assert_eq!(isqrt(4_294_967_295 * 4_294_967_295), 4_294_967_295);
}

#[test]
fn sample_conversion_round_trip() {
    // INT32_MAX maps to full scale: 1.0 within 1e-6.
    let full = amp_of_raw(i32::MAX);
    assert_eq!(full, 10_000);
    assert!((full as f64 / 10_000.0 - 1.0).abs() < 1e-6);
    // -INT32_MAX maps to -1.0 within 1e-6.
    let neg = amp_of_raw(-i32::MAX);
    assert_eq!(neg, -10_000);
    assert!((neg as f64 / 10_000.0 + 1.0).abs() < 1e-6);
    // 0 maps to exactly 0.
    assert_eq!(amp_of_raw(0), 0);
}

#[test]
fn sample_conversion_clamps_min() {
    // i32::MIN is one step beyond -INT32_MAX; rounding toward zero keeps
    // it at -1.0 of scale.
    assert_eq!(amp_of_raw(i32::MIN), -10_000);
}

#[test]
fn little_endian_decoding() {
    assert_eq!(i32_from_le(0x01, 0x00, 0x00, 0x00), 1);
    assert_eq!(i32_from_le(0xff, 0xff, 0xff, 0xff), -1);
    assert_eq!(i32_from_le(0x00, 0x00, 0x00, 0x80), i32::MIN);
    assert_eq!(i32_from_le(0xff, 0xff, 0xff, 0x7f), i32::MAX);
    assert_eq!(i32_from_le(0x78, 0x56, 0x34, 0x12), 0x1234_5678);
}

#[test]
fn bytes_to_amps_converts_each_sample() {
    let bytes = vec![
        0xff, 0xff, 0xff, 0x7f, // INT32_MAX
        0x00, 0x00, 0x00, 0x00, // 0
        0x01, 0x00, 0x00, 0x80, // -INT32_MAX
    ];
    let amps = bytes_to_amps(&bytes);
    assert_eq!(amps, vec![10_000, 0, -10_000]);
}

#[test]
fn bounded_eviction() {
    // Capacity 128, 129 additions: the first (outlier) value is gone.
    let mut w = BoundedMovingAverage::new(128);
    w.add(12_800);
    for _ in 0..128 {
        w.add(0);
    }
    assert_eq!(w.count(), 128);
    // The simple mean of all 129 values would be 99; the window's average
    // no longer reflects the outlier at all.
    assert_eq!(w.average(), 0);
    assert_ne!(w.average(), 12_800 / 129);
}

#[test]
fn moving_average_basics() {
    let mut w = BoundedMovingAverage::new(2);
    assert_eq!(w.average(), 0);
    assert_eq!(w.count(), 0);
    w.add(10);
    assert_eq!(w.average(), 10);
    w.add(20);
    assert_eq!(w.average(), 15);
    w.add(30);
    // Eviction of the 10: the window holds {20, 30}.
    assert_eq!(w.count(), 2);
    assert_eq!(w.average(), 25);
    w.reset();
    assert_eq!(w.count(), 0);
    assert_eq!(w.average(), 0);
}

#[test]
fn octave_candidates() {
    // Average 120 bpm, raw 61 bpm: the doubled candidate 122 bpm wins.
    assert_eq!(select_tempo(120_000, 61_000), 122_000);
    // Average 120 bpm, raw 250 bpm: the halved candidate 125 bpm wins.
    assert_eq!(select_tempo(120_000, 250_000), 125_000);
    // Average 120 bpm, raw 121 bpm: the raw estimate itself is closest.
    assert_eq!(select_tempo(120_000, 121_000), 121_000);
    // Exact tie between raw 50 and doubled 100 against average 75: the
    // raw estimate wins the tie.
    assert_eq!(select_tempo(75_000, 50_000), 50_000);
}

#[test]
fn accuracy_figures() {
    assert_eq!(accuracy_of(0), 0);
    assert_eq!(accuracy_of(1), 2_500);
    assert_eq!(accuracy_of(2), 5_000);
    assert_eq!(accuracy_of(3), 7_500);
    assert_eq!(accuracy_of(4), 10_000);
    assert_eq!(accuracy_of(100), 10_000);
}

#[test]
fn idle_inhibition_flags() {
    assert!(!inhibiting_idle(&vec![]));
    assert!(!inhibiting_idle(&vec![0, 4, 2]));
    assert!(inhibiting_idle(&vec![0, 8]));
    assert!(inhibiting_idle(&vec![9]));
    assert!(inhibiting_idle(&vec![1, 2, 12, 4]));
}
