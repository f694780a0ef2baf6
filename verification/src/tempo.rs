//! Tempo resolution: octave correction of raw beat estimates against the
//! recent tempo history, and the accuracy figure for the smoothed tempo.
//!
//! Tempos are carried in thousandths of a beat per minute; accuracy is a
//! fixed-point fraction of `ACC_UNIT` (10_000 stands for 1.0).

use vstd::prelude::*;

verus! {

/// Fixed-point scale for tempo values: units per beat-per-minute.
pub const TEMPO_UNIT: u64 = 1_000;

/// Largest raw tempo estimate accepted, in `TEMPO_UNIT`s (2000 bpm).
pub const MAX_RAW_TEMPO: u64 = 2_000_000;

/// Fixed-point scale for the accuracy figure: this many units stand for 1.0.
pub const ACC_UNIT: u64 = 10_000;

/// One quarter of `ACC_UNIT`: the accuracy earned per held tempo sample.
pub const ACC_QUARTER: u64 = 2_500;

/// Absolute difference.
pub open spec fn dist(a: int, b: int) -> int {
    if a >= b {
        a - b
    } else {
        b - a
    }
}

/// The octave-corrected tempo: of the candidates `raw`, `2 * raw` and
/// `raw / 2`, in that order, the first one closest to `avg`; the raw
/// estimate wins exact ties over its octave multiples.
pub open spec fn select_tempo_spec(avg: int, raw: int) -> int {
    let c2 = 2 * raw;
    let c3 = raw / 2;
    let d1 = dist(raw, avg);
    let d2 = dist(c2, avg);
    let d3 = dist(c3, avg);
    if d2 < d1 {
        if d3 < d2 {
            c3
        } else {
            c2
        }
    } else {
        if d3 < d1 {
            c3
        } else {
            raw
        }
    }
}

/// The selected tempo is one of the three candidates, no candidate lies
/// closer to the average, and the earlier candidate wins every tie.
pub proof fn lemma_select_tempo_minimizes(avg: int, raw: int)
    requires
        raw >= 0,
    ensures
        select_tempo_spec(avg, raw) == raw || select_tempo_spec(avg, raw) == 2 * raw
            || select_tempo_spec(avg, raw) == raw / 2,
        dist(select_tempo_spec(avg, raw), avg) <= dist(raw, avg),
        dist(select_tempo_spec(avg, raw), avg) <= dist(2 * raw, avg),
        dist(select_tempo_spec(avg, raw), avg) <= dist(raw / 2, avg),
        dist(raw, avg) <= dist(2 * raw, avg) && dist(raw, avg) <= dist(raw / 2, avg)
            ==> select_tempo_spec(avg, raw) == raw,
        dist(2 * raw, avg) < dist(raw, avg) && dist(2 * raw, avg) <= dist(raw / 2, avg)
            ==> select_tempo_spec(avg, raw) == 2 * raw,
        dist(raw / 2, avg) < dist(raw, avg) && dist(raw / 2, avg) < dist(2 * raw, avg)
            ==> select_tempo_spec(avg, raw) == raw / 2,
{
}

/// Picks the octave-corrected tempo closest to the running average.
pub fn select_tempo(avg: u64, raw: u64) -> (sel: u64)
    requires
        avg <= 1_000_000_000,
        raw <= MAX_RAW_TEMPO,
    ensures
        sel == select_tempo_spec(avg as int, raw as int),
        sel <= 2 * MAX_RAW_TEMPO,
{
    let c2 = 2 * raw;
    let c3 = raw / 2;
    let d1 = if raw >= avg {
        raw - avg
    } else {
        avg - raw
    };
    let d2 = if c2 >= avg {
        c2 - avg
    } else {
        avg - c2
    };
    let d3 = if c3 >= avg {
        c3 - avg
    } else {
        avg - c3
    };
    if d2 < d1 {
        if d3 < d2 {
            c3
        } else {
            c2
        }
    } else {
        if d3 < d1 {
            c3
        } else {
            raw
        }
    }
}

/// Accuracy of a tempo average holding `n` samples: one quarter per
/// sample, saturating at 1.0 from four samples on.
pub open spec fn accuracy_spec(n: nat) -> int {
    if n >= 4 {
        ACC_UNIT as int
    } else {
        n * (ACC_QUARTER as int)
    }
}

/// One held sample yields a quarter of full accuracy; four or more
/// saturate it at 1.0.
pub proof fn lemma_accuracy_saturation(n: nat)
    ensures
        n == 1 ==> accuracy_spec(n) == ACC_QUARTER,
        n >= 4 ==> accuracy_spec(n) == ACC_UNIT,
        0 <= accuracy_spec(n) <= ACC_UNIT,
{
    if n < 4 {
        assert(n * (ACC_QUARTER as int) <= 3 * (ACC_QUARTER as int)) by (nonlinear_arith)
            requires
                n <= 3,
        ;
        assert(n * (ACC_QUARTER as int) >= 0) by (nonlinear_arith);
    }
}

/// The accuracy figure for a tempo window holding `n` samples.
pub fn accuracy_of(n: usize) -> (acc: u64)
    ensures
        acc == accuracy_spec(n as nat),
{
    if n >= 4 {
        ACC_UNIT
    } else {
        (n as u64) * ACC_QUARTER
    }
}

} // verus!
