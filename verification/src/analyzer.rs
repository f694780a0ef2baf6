//! The analyzer state machine: consumes frames of fixed-point samples and
//! a raw beat-tracker estimate, and emits tempo, volume and reset events.
//!
//! A frame is split into `SUB_BLOCKS` equal sub-blocks; the RMS energy of
//! each sub-block feeds a bounded moving average. The frame's smoothed RMS
//! decides between the active branch (volume and tempo events) and the
//! silence branch (silence accounting and the one-shot reset).

use vstd::prelude::*;

use crate::AMP_UNIT;
use crate::math::{isqrt, lemma_sqrt_floor_bounds, sqrt_floor};
use crate::moving_average::{push_bounded, window_avg, BoundedMovingAverage};
use crate::tempo::{accuracy_of, accuracy_spec, select_tempo, select_tempo_spec, MAX_RAW_TEMPO};

verus! {

/// Number of equal sub-blocks a frame is split into.
pub const SUB_BLOCKS: usize = 256;

/// Capacity of the RMS moving average.
pub const RMS_WINDOW: usize = 512;

/// Capacity of the tempo moving average.
pub const TEMPO_WINDOW: usize = 128;

/// The energy gate: RMS at or below this is silence (0.01 of full scale).
pub const SILENCE_RMS: u64 = 100;

/// A smoothed RMS of this much or more maps to full volume (0.2 of scale).
pub const VOLUME_KNEE: u64 = 2_000;

/// Reciprocal of the volume knee in amplitude units.
pub const VOLUME_GAIN: u64 = 5;

/// Numerator of the silence duration, in thousandths of a second (0.618 s).
pub const SILENCE_NUM: u64 = 618;

/// Denominator of the silence duration.
pub const SILENCE_DEN: u64 = 1_000;

/// Largest frame size accepted.
pub const MAX_FRAME: usize = 16_777_216;

/// An analysis event handed to the renderer.
#[derive(Clone, Copy, PartialEq, Eq, Structural, Debug)]
pub enum Event {
    /// Smoothed tempo in `TEMPO_UNIT`s of a bpm, with its accuracy in
    /// `ACC_UNIT`s.
    Tempo { average: u64, accuracy: u64 },
    /// Smoothed loudness in `AMP_UNIT`s, between 0 and full scale.
    Volume { average: u64 },
    /// Prolonged silence: accumulated state was discarded.
    Reset,
}

/// The abstract state of an analyzer.
#[verifier::ext_equal]
pub ghost struct AnalyzerView {
    /// RMS history, oldest first.
    pub rms_window: Seq<u64>,
    /// Tempo history, oldest first.
    pub tempo_window: Seq<u64>,
    /// Consecutive silent samples seen so far.
    pub silence: int,
    /// Silent-sample count at which a reset fires.
    pub silence_reset: int,
    /// Samples per frame.
    pub frame_size: int,
}

/// Sum of the squares of a sequence of samples.
pub open spec fn sum_sq(s: Seq<i64>) -> int
    decreases s.len(),
{
    if s.len() == 0 {
        0
    } else {
        sum_sq(s.drop_last()) + s.last() * s.last()
    }
}

/// RMS energy of one sub-block: the square root of the mean square.
pub open spec fn rms_of_block(block: Seq<i64>) -> int {
    sqrt_floor((sum_sq(block) / (block.len() as int)) as nat) as int
}

/// The RMS window after the first `k` sub-blocks of `frame`, each of
/// length `blen`, have been fed into it.
pub open spec fn feed_rms(w: Seq<u64>, frame: Seq<i64>, k: int, blen: int) -> Seq<u64>
    decreases k,
{
    if k <= 0 {
        w
    } else {
        push_bounded(
            feed_rms(w, frame, k - 1, blen),
            rms_of_block(frame.subrange((k - 1) * blen, k * blen)) as u64,
            RMS_WINDOW as int,
        )
    }
}

/// The RMS window after a whole frame: cleared first when the state is
/// already past the silence threshold, then fed all sub-blocks.
pub open spec fn rms_win_after(s: AnalyzerView, frame: Seq<i64>) -> Seq<u64> {
    let w0 = if s.silence > s.silence_reset {
        Seq::<u64>::empty()
    } else {
        s.rms_window
    };
    feed_rms(w0, frame, SUB_BLOCKS as int, s.frame_size / (SUB_BLOCKS as int))
}

/// The smoothed RMS read once for the whole frame.
pub open spec fn frame_rms(s: AnalyzerView, frame: Seq<i64>) -> int {
    window_avg(rms_win_after(s, frame))
}

/// Loudness for a smoothed RMS: `rms / 0.2` clamped at full scale.
pub open spec fn volume_spec(rms: int) -> int {
    if rms < VOLUME_KNEE as int {
        rms * (VOLUME_GAIN as int)
    } else {
        AMP_UNIT as int
    }
}

/// The tempo window after one non-silent frame: unchanged when the raw
/// estimate is absent, otherwise extended by the octave-corrected pick.
pub open spec fn tempo_win_after(s: AnalyzerView, raw: u64) -> Seq<u64> {
    if raw == 0 {
        s.tempo_window
    } else {
        let sel = if s.tempo_window.len() > 0 {
            select_tempo_spec(window_avg(s.tempo_window), raw as int)
        } else {
            raw as int
        };
        push_bounded(s.tempo_window, sel as u64, TEMPO_WINDOW as int)
    }
}

/// Whether this frame's silence crosses the reset threshold: the state is
/// still active, the accumulator is below its overflow ceiling, and adding
/// one frame of silence reaches the threshold.
pub open spec fn crosses_threshold(s: AnalyzerView) -> bool {
    &&& s.silence < u64::MAX - s.frame_size
    &&& s.silence < s.silence_reset
    &&& s.silence + s.frame_size >= s.silence_reset
}

/// Whether the silence accumulator still grows on a silent frame.
pub open spec fn accumulates_silence(s: AnalyzerView) -> bool {
    s.silence < u64::MAX - s.frame_size && s.silence < s.silence_reset
}

/// The analyzer state after one frame.
pub open spec fn step_state(s: AnalyzerView, frame: Seq<i64>, raw: u64) -> AnalyzerView {
    let w1 = rms_win_after(s, frame);
    let rms = window_avg(w1);
    if rms > SILENCE_RMS as int {
        AnalyzerView {
            rms_window: w1,
            tempo_window: tempo_win_after(s, raw),
            silence: 0,
            silence_reset: s.silence_reset,
            frame_size: s.frame_size,
        }
    } else if accumulates_silence(s) {
        AnalyzerView {
            rms_window: w1,
            tempo_window: if crosses_threshold(s) {
                Seq::<u64>::empty()
            } else {
                s.tempo_window
            },
            silence: s.silence + s.frame_size,
            silence_reset: s.silence_reset,
            frame_size: s.frame_size,
        }
    } else {
        AnalyzerView {
            rms_window: w1,
            tempo_window: s.tempo_window,
            silence: s.silence,
            silence_reset: s.silence_reset,
            frame_size: s.frame_size,
        }
    }
}

/// The events emitted for one frame, in order.
pub open spec fn step_events(s: AnalyzerView, frame: Seq<i64>, raw: u64) -> Seq<Event> {
    let rms = frame_rms(s, frame);
    if rms > SILENCE_RMS as int {
        let vol = Event::Volume { average: volume_spec(rms) as u64 };
        if raw == 0 {
            seq![vol]
        } else {
            let tw = tempo_win_after(s, raw);
            seq![
                vol,
                Event::Tempo {
                    average: window_avg(tw) as u64,
                    accuracy: accuracy_spec(tw.len()) as u64,
                },
            ]
        }
    } else if crosses_threshold(s) {
        seq![Event::Reset]
    } else {
        Seq::<Event>::empty()
    }
}

/// The analyzer: owns the moving averages and the silence accounting.
pub struct Analyzer {
    rms_avg: BoundedMovingAverage,
    tempo_avg: BoundedMovingAverage,
    silence: u64,
    silence_reset: u64,
    frame_size: usize,
}

impl View for Analyzer {
    type V = AnalyzerView;

    closed spec fn view(&self) -> AnalyzerView {
        AnalyzerView {
            rms_window: self.rms_avg@,
            tempo_window: self.tempo_avg@,
            silence: self.silence as int,
            silence_reset: self.silence_reset as int,
            frame_size: self.frame_size as int,
        }
    }
}

impl Analyzer {
    /// The analyzer is well formed: windows at their fixed capacities,
    /// silence accounting within bounds.
    pub closed spec fn inv(&self) -> bool {
        &&& self.rms_avg.inv()
        &&& self.rms_avg.spec_capacity() == RMS_WINDOW as int
        &&& self.tempo_avg.inv()
        &&& self.tempo_avg.spec_capacity() == TEMPO_WINDOW as int
        &&& self.frame_size % SUB_BLOCKS == 0
        &&& SUB_BLOCKS <= self.frame_size <= MAX_FRAME
        &&& self.silence_reset <= 0x4_0000_0000
        &&& self.silence <= self.silence_reset + self.frame_size
    }

    /// A fresh analyzer: empty windows, no silence seen, threshold set to
    /// `0.618` seconds' worth of samples at the given rate.
    pub fn new(frame_size: usize, sample_rate: u32) -> (a: Analyzer)
        requires
            frame_size % SUB_BLOCKS == 0,
            SUB_BLOCKS <= frame_size <= MAX_FRAME,
        ensures
            a.inv(),
            a@.rms_window == Seq::<u64>::empty(),
            a@.tempo_window == Seq::<u64>::empty(),
            a@.silence == 0,
            a@.silence_reset == (sample_rate as int) * (SILENCE_NUM as int) / (SILENCE_DEN as int),
            a@.frame_size == frame_size,
    {
        let silence_reset = (sample_rate as u64) * SILENCE_NUM / SILENCE_DEN;
        Analyzer {
            rms_avg: BoundedMovingAverage::new(RMS_WINDOW),
            tempo_avg: BoundedMovingAverage::new(TEMPO_WINDOW),
            silence: 0,
            silence_reset,
            frame_size,
        }
    }

    /// The configured frame size in samples.
    pub fn frame_size(&self) -> (n: usize)
        ensures
            n == self@.frame_size,
    {
        self.frame_size
    }

    /// Consume one frame of fixed-point samples together with the beat
    /// tracker's current raw estimate (`0` when none is available yet),
    /// and return the events to emit, in order. When a `Reset` event is
    /// returned, the caller must also rebuild its beat tracker from fresh
    /// state.
    pub fn process_frame(&mut self, frame: &Vec<i64>, raw_tempo: u64) -> (events: Vec<Event>)
        requires
            old(self).inv(),
            frame@.len() == old(self)@.frame_size,
            forall|i: int|
                0 <= i < frame@.len() ==> -AMP_UNIT <= #[trigger] frame@[i] && frame@[i]
                    <= AMP_UNIT,
            raw_tempo <= MAX_RAW_TEMPO,
        ensures
            final(self).inv(),
            final(self)@ == step_state(old(self)@, frame@, raw_tempo),
            events@ == step_events(old(self)@, frame@, raw_tempo),
    {
        let ghost s0 = old(self)@;
        let ghost w0 = if s0.silence > s0.silence_reset {
            Seq::<u64>::empty()
        } else {
            s0.rms_window
        };
        if self.silence > self.silence_reset {
            self.rms_avg.reset();
        }
        let blen = self.frame_size / SUB_BLOCKS;
        let mut k: usize = 0;
        while k < SUB_BLOCKS
            invariant
                self.rms_avg.inv(),
                self.rms_avg.spec_capacity() == RMS_WINDOW as int,
                self.tempo_avg == old(self).tempo_avg,
                self.silence == old(self).silence,
                self.silence_reset == old(self).silence_reset,
                self.frame_size == old(self).frame_size,
                old(self).inv(),
                s0 == old(self)@,
                blen == s0.frame_size / (SUB_BLOCKS as int),
                1 <= blen <= 65_536,
                (blen as int) * (SUB_BLOCKS as int) == s0.frame_size,
                frame@.len() == s0.frame_size,
                forall|i: int|
                    0 <= i < frame@.len() ==> -AMP_UNIT <= #[trigger] frame@[i] && frame@[i]
                        <= AMP_UNIT,
                k <= SUB_BLOCKS,
                self.rms_avg@ == feed_rms(w0, frame@, k as int, blen as int),
            decreases SUB_BLOCKS - k,
        {
            proof {
                assert((k as int) * (blen as int) + (blen as int) == ((k as int) + 1) * (
                blen as int) && 0 <= (k as int) * (blen as int) && ((k as int) + 1) * (
                blen as int) <= (SUB_BLOCKS as int) * (blen as int)) by (nonlinear_arith)
                    requires
                        0 <= (k as int) < SUB_BLOCKS as int,
                        1 <= blen as int,
                ;
                assert((SUB_BLOCKS as int) * (blen as int) == (blen as int) * (SUB_BLOCKS as int))
                    by (nonlinear_arith);
            }
            let base = k * blen;
            let ghost block = frame@.subrange(base as int, base as int + blen as int);
            let mut sum: u64 = 0;
            let mut j: usize = 0;
            while j < blen
                invariant
                    j <= blen,
                    1 <= blen,
                    base == k * blen,
                    base + blen <= frame@.len(),
                    block == frame@.subrange(base as int, base as int + blen as int),
                    frame@.len() <= MAX_FRAME,
                    forall|i: int|
                        0 <= i < frame@.len() ==> -AMP_UNIT <= #[trigger] frame@[i] && frame@[i]
                            <= AMP_UNIT,
                    sum == sum_sq(block.subrange(0, j as int)),
                    sum <= (j as int) * 100_000_000,
                decreases blen - j,
            {
                let x = frame[base + j];
                proof {
                    assert(block[j as int] == frame@[base + j as int]);
                    assert(x * x <= 100_000_000 && x * x >= 0) by (nonlinear_arith)
                        requires
                            -10_000 <= x <= 10_000,
                    ;
                    assert(block.subrange(0, j + 1).drop_last() =~= block.subrange(0, j as int));
                    assert(block.subrange(0, j + 1).last() == block[j as int]);
                }
                sum = sum + ((x * x) as u64);
                j = j + 1;
            }
            proof {
                assert(block.subrange(0, blen as int) =~= block);
            }
            let mean = sum / (blen as u64);
            proof {
                vstd::arithmetic::div_mod::lemma_div_is_ordered(
                    sum as int,
                    (blen as int) * 100_000_000,
                    blen as int,
                );
                vstd::arithmetic::div_mod::lemma_div_by_multiple(100_000_000, blen as int);
                assert(100_000_000 * (blen as int) == (blen as int) * 100_000_000)
                    by (nonlinear_arith);
                assert(mean <= 100_000_000);
            }
            let r = isqrt(mean);
            proof {
                lemma_sqrt_floor_bounds(mean as nat);
                assert(r <= 10_000) by (nonlinear_arith)
                    requires
                        (r as int) * (r as int) <= 100_000_000,
                ;
                assert(r as int == rms_of_block(block));
                assert(feed_rms(w0, frame@, k + 1, blen as int) == push_bounded(
                    feed_rms(w0, frame@, k as int, blen as int),
                    rms_of_block(frame@.subrange((k as int) * (blen as int), (k + 1) * (blen as int)))
                        as u64,
                    RMS_WINDOW as int,
                ));
                assert((k as int) * (blen as int) == base as int && (k + 1) * (blen as int)
                    == base as int + blen as int) by (nonlinear_arith)
                    requires
                        base as int == (k as int) * (blen as int),
                        0 <= k,
                        1 <= blen,
                ;
                assert(frame@.subrange((k as int) * (blen as int), (k + 1) * (blen as int))
                    == block);
            }
            self.rms_avg.add(r);
            k = k + 1;
        }
        let rms = self.rms_avg.average();
        proof {
            assert(self.rms_avg@ == rms_win_after(s0, frame@));
            assert(rms as int == frame_rms(s0, frame@));
        }
        let mut events: Vec<Event> = Vec::new();
        if rms > SILENCE_RMS {
            self.silence = 0;
            let vol = if rms < VOLUME_KNEE {
                rms * VOLUME_GAIN
            } else {
                AMP_UNIT as u64
            };
            events.push(Event::Volume { average: vol });
            if raw_tempo != 0 {
                let sel = if self.tempo_avg.count() > 0 {
                    let avg = self.tempo_avg.average();
                    select_tempo(avg, raw_tempo)
                } else {
                    raw_tempo
                };
                self.tempo_avg.add(sel);
                let t_avg = self.tempo_avg.average();
                let acc = accuracy_of(self.tempo_avg.count());
                events.push(Event::Tempo { average: t_avg, accuracy: acc });
                proof {
                    assert(self.tempo_avg@ == tempo_win_after(s0, raw_tempo));
                }
            }
            proof {
                assert(self@ =~= step_state(s0, frame@, raw_tempo));
                assert(events@ =~= step_events(s0, frame@, raw_tempo));
            }
        } else {
            if self.silence < u64::MAX - (self.frame_size as u64) && self.silence
                < self.silence_reset {
                self.silence = self.silence + (self.frame_size as u64);
                if self.silence >= self.silence_reset {
                    self.tempo_avg.reset();
                    events.push(Event::Reset);
                }
            }
            proof {
                assert(self@ =~= step_state(s0, frame@, raw_tempo));
                assert(events@ =~= step_events(s0, frame@, raw_tempo));
            }
        }
        events
    }
}

/// A silent frame emits no volume and no tempo event; it emits exactly one
/// reset event when its silence first reaches the threshold, and nothing
/// otherwise.
pub proof fn lemma_silent_frame_events(s: AnalyzerView, frame: Seq<i64>, raw: u64)
    requires
        frame_rms(s, frame) <= SILENCE_RMS as int,
    ensures
        forall|i: int|
            0 <= i < step_events(s, frame, raw).len() ==> #[trigger] step_events(s, frame, raw)[i]
                == Event::Reset,
        crosses_threshold(s) ==> step_events(s, frame, raw) == seq![Event::Reset],
        !crosses_threshold(s) ==> step_events(s, frame, raw) == Seq::<Event>::empty(),
        crosses_threshold(s) ==> step_state(s, frame, raw).silence >= s.silence_reset,
{
}

/// Once past the silence threshold, further silent frames emit nothing at
/// all and leave the silence account unchanged: the reset is edge-triggered.
pub proof fn lemma_reset_idempotent(s: AnalyzerView, frame: Seq<i64>, raw: u64)
    requires
        s.silence >= s.silence_reset,
        frame_rms(s, frame) <= SILENCE_RMS as int,
    ensures
        step_events(s, frame, raw) == Seq::<Event>::empty(),
        step_state(s, frame, raw).silence == s.silence,
        step_state(s, frame, raw).silence_reset == s.silence_reset,
        step_state(s, frame, raw).tempo_window == s.tempo_window,
        step_state(s, frame, raw).silence >= step_state(s, frame, raw).silence_reset,
{
}

/// The volume figure is the smoothed RMS divided by a fifth of full scale,
/// clamped to `[0, AMP_UNIT]`.
pub proof fn lemma_volume_clamp(rms: int)
    requires
        rms >= 0,
    ensures
        0 <= volume_spec(rms) <= AMP_UNIT,
        volume_spec(rms) == if rms * (VOLUME_GAIN as int) < AMP_UNIT as int {
            rms * (VOLUME_GAIN as int)
        } else {
            AMP_UNIT as int
        },
{
}

/// A frame whose smoothed RMS exceeds the silence threshold emits a volume event first,
/// resets the silence account, and emits a tempo event exactly when a raw
/// estimate was available.
pub proof fn lemma_active_frame_events(s: AnalyzerView, frame: Seq<i64>, raw: u64)
    requires
        frame_rms(s, frame) > SILENCE_RMS as int,
    ensures
        step_events(s, frame, raw).len() == if raw == 0 {
            1int
        } else {
            2int
        },
        step_events(s, frame, raw)[0] == (Event::Volume {
            average: volume_spec(frame_rms(s, frame)) as u64,
        }),
        raw != 0 ==> step_events(s, frame, raw)[1] == (Event::Tempo {
            average: window_avg(tempo_win_after(s, raw)) as u64,
            accuracy: accuracy_spec(tempo_win_after(s, raw).len()) as u64,
        }),
        step_state(s, frame, raw).silence == 0,
{
}

/// The state reached after feeding a run of frames, with no raw estimate.
pub open spec fn run_state(s: AnalyzerView, frames: Seq<Seq<i64>>) -> AnalyzerView
    decreases frames.len(),
{
    if frames.len() == 0 {
        s
    } else {
        step_state(run_state(s, frames.drop_last()), frames.last(), 0)
    }
}

/// All events emitted over a run of frames, concatenated in order.
pub open spec fn run_events(s: AnalyzerView, frames: Seq<Seq<i64>>) -> Seq<Event>
    decreases frames.len(),
{
    if frames.len() == 0 {
        Seq::<Event>::empty()
    } else {
        run_events(s, frames.drop_last()) + step_events(
            run_state(s, frames.drop_last()),
            frames.last(),
            0,
        )
    }
}

/// Every frame of the run reads as silent against the state it meets.
pub open spec fn all_silent(s: AnalyzerView, frames: Seq<Seq<i64>>) -> bool
    decreases frames.len(),
{
    frames.len() == 0 || (all_silent(s, frames.drop_last()) && frame_rms(
        run_state(s, frames.drop_last()),
        frames.last(),
    ) <= SILENCE_RMS as int)
}

/// Over any run of silent frames, exactly one reset is emitted when the
/// accumulated silent samples first reach the threshold during the run,
/// and nothing at all otherwise: no volume or tempo event on any silent
/// frame, and no second reset once the threshold is passed.
pub proof fn lemma_silence_episode(s: AnalyzerView, frames: Seq<Seq<i64>>)
    requires
        all_silent(s, frames),
        0 <= s.silence,
        1 <= s.frame_size,
        s.silence + frames.len() * s.frame_size < u64::MAX - s.frame_size,
    ensures
        run_state(s, frames).silence_reset == s.silence_reset,
        run_state(s, frames).frame_size == s.frame_size,
        s.silence >= s.silence_reset ==> run_events(s, frames) == Seq::<Event>::empty()
            && run_state(s, frames).silence == s.silence,
        s.silence < s.silence_reset && s.silence + frames.len() * s.frame_size
            >= s.silence_reset ==> run_events(s, frames) == seq![Event::Reset] && run_state(
            s,
            frames,
        ).silence >= s.silence_reset,
        s.silence < s.silence_reset && s.silence + frames.len() * s.frame_size
            < s.silence_reset ==> run_events(s, frames) == Seq::<Event>::empty() && run_state(
            s,
            frames,
        ).silence == s.silence + frames.len() * s.frame_size,
    decreases frames.len(),
{
    if frames.len() == 0 {
        assert(frames.len() * s.frame_size == 0);
    } else {
        let rest = frames.drop_last();
        let n = frames.len() as int;
        assert((n - 1) * s.frame_size + s.frame_size == n * s.frame_size && 0 <= (n - 1)
            * s.frame_size <= n * s.frame_size) by (nonlinear_arith)
            requires
                n >= 1,
                s.frame_size >= 1,
        ;
        lemma_silence_episode(s, rest);
        let sp = run_state(s, rest);
        let last_events = step_events(sp, frames.last(), 0);
        if s.silence >= s.silence_reset {
            lemma_reset_idempotent(sp, frames.last(), 0);
            assert(run_events(s, rest) + last_events =~= Seq::<Event>::empty());
        } else if s.silence + (n - 1) * s.frame_size >= s.silence_reset {
            lemma_reset_idempotent(sp, frames.last(), 0);
            assert(run_events(s, rest) + last_events =~= seq![Event::Reset]);
        } else {
            assert(sp.silence == s.silence + (n - 1) * s.frame_size);
            assert(accumulates_silence(sp));
            lemma_silent_frame_events(sp, frames.last(), 0);
            if sp.silence + sp.frame_size >= sp.silence_reset {
                assert(crosses_threshold(sp));
                assert(run_events(s, rest) + last_events =~= seq![Event::Reset]);
            } else {
                assert(!crosses_threshold(sp));
                assert(run_events(s, rest) + last_events =~= Seq::<Event>::empty());
            }
        }
    }
}

} // verus!
