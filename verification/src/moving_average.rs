//! Fixed-capacity moving average: a ring buffer plus a running sum.
//!
//! Holds at most `capacity` most-recent values; adding to a full window
//! evicts the oldest value. The average is the integer mean of the held
//! values, `0` when empty.

use vstd::prelude::*;

verus! {

/// Largest value a window may hold; keeps every running sum inside `u64`.
pub const VAL_BOUND: u64 = 1_000_000_000;

/// Largest capacity a window may be built with.
pub const CAP_BOUND: usize = 1_000_000;

/// Sum of a sequence of values.
pub open spec fn seq_sum(s: Seq<u64>) -> int
    decreases s.len(),
{
    if s.len() == 0 {
        0
    } else {
        seq_sum(s.drop_last()) + s.last()
    }
}

/// Integer mean of a window's values, `0` when the window is empty.
pub open spec fn window_avg(s: Seq<u64>) -> int {
    if s.len() == 0 {
        0
    } else {
        seq_sum(s) / (s.len() as int)
    }
}

/// Result of adding `x` to a window of capacity `cap`: the oldest value
/// leaves when the window is already full.
pub open spec fn push_bounded(s: Seq<u64>, x: u64, cap: int) -> Seq<u64> {
    if s.len() < cap {
        s.push(x)
    } else {
        s.drop_first().push(x)
    }
}

pub proof fn lemma_seq_sum_append(a: Seq<u64>, b: Seq<u64>)
    ensures
        seq_sum(a + b) == seq_sum(a) + seq_sum(b),
    decreases b.len(),
{
    if b.len() == 0 {
        assert(a + b =~= a);
    } else {
        assert((a + b).drop_last() =~= a + b.drop_last());
        lemma_seq_sum_append(a, b.drop_last());
    }
}

pub proof fn lemma_seq_sum_bounds(s: Seq<u64>, bound: int)
    requires
        bound >= 0,
        forall|i: int| 0 <= i < s.len() ==> s[i] <= bound,
    ensures
        0 <= seq_sum(s) <= s.len() * bound,
    decreases s.len(),
{
    if s.len() > 0 {
        lemma_seq_sum_bounds(s.drop_last(), bound);
        assert((s.len() - 1) * bound + bound == s.len() * bound) by (nonlinear_arith);
    }
}

pub proof fn lemma_seq_sum_update(s: Seq<u64>, i: int, x: u64)
    requires
        0 <= i < s.len(),
    ensures
        seq_sum(s.update(i, x)) == seq_sum(s) - s[i] + x,
    decreases s.len(),
{
    if i == s.len() - 1 {
        assert(s.update(i, x).drop_last() =~= s.drop_last());
        assert(s.update(i, x).last() == x);
    } else {
        assert(s.update(i, x).drop_last() =~= s.drop_last().update(i, x));
        assert(s.update(i, x).last() == s.last());
        lemma_seq_sum_update(s.drop_last(), i, x);
    }
}

/// A bounded moving average over non-negative fixed-point values.
pub struct BoundedMovingAverage {
    buf: Vec<u64>,
    start: usize,
    sum: u64,
    cap: usize,
}

impl View for BoundedMovingAverage {
    type V = Seq<u64>;

    /// The held values, oldest first.
    closed spec fn view(&self) -> Seq<u64> {
        self.buf@.subrange(self.start as int, self.buf@.len() as int) + self.buf@.subrange(
            0,
            self.start as int,
        )
    }
}

impl BoundedMovingAverage {
    /// The capacity this window was built with.
    pub closed spec fn spec_capacity(&self) -> int {
        self.cap as int
    }

    pub closed spec fn wf(&self) -> bool {
        &&& 1 <= self.cap <= CAP_BOUND
        &&& self.buf@.len() <= self.cap
        &&& (self.buf@.len() == self.cap || self.start == 0)
        &&& self.start <= self.buf@.len()
        &&& self.start < self.cap
        &&& (forall|i: int| 0 <= i < self.buf@.len() ==> self.buf@[i] <= VAL_BOUND)
        &&& self.sum == seq_sum(self.buf@)
    }

    /// The window is well formed: values bounded, no more than `capacity` held.
    pub open spec fn inv(&self) -> bool {
        &&& self.wf()
        &&& 1 <= self.spec_capacity() <= CAP_BOUND
        &&& self@.len() <= self.spec_capacity()
        &&& (forall|i: int| 0 <= i < self@.len() ==> self@[i] <= VAL_BOUND)
    }

    /// Rotating the ring does not change the sum of the held values.
    proof fn lemma_view_sum(&self)
        requires
            self.start <= self.buf@.len(),
        ensures
            seq_sum(self@) == seq_sum(self.buf@),
    {
        let hi = self.buf@.subrange(self.start as int, self.buf@.len() as int);
        let lo = self.buf@.subrange(0, self.start as int);
        lemma_seq_sum_append(hi, lo);
        lemma_seq_sum_append(lo, hi);
        assert(lo + hi =~= self.buf@);
    }

    /// A fresh, empty window of the given capacity.
    pub fn new(capacity: usize) -> (w: BoundedMovingAverage)
        requires
            1 <= capacity <= CAP_BOUND,
        ensures
            w.inv(),
            w@ =~= Seq::<u64>::empty(),
            w.spec_capacity() == capacity,
    {
        BoundedMovingAverage { buf: Vec::new(), start: 0, sum: 0, cap: capacity }
    }

    /// Number of values currently held, never more than the capacity.
    pub fn count(&self) -> (n: usize)
        requires
            self.inv(),
        ensures
            n == self@.len(),
    {
        self.buf.len()
    }

    /// Add a value; evicts the oldest one when the window is already full.
    pub fn add(&mut self, x: u64)
        requires
            old(self).inv(),
            x <= VAL_BOUND,
        ensures
            final(self).inv(),
            final(self).spec_capacity() == old(self).spec_capacity(),
            final(self)@ =~= push_bounded(old(self)@, x, old(self).spec_capacity()),
    {
        proof {
            lemma_seq_sum_bounds(self.buf@, VAL_BOUND as int);
            assert(self.buf@.len() * (VAL_BOUND as int) <= (CAP_BOUND as int) * (
            VAL_BOUND as int)) by (nonlinear_arith)
                requires
                    self.buf@.len() <= CAP_BOUND as int,
            ;
        }
        if self.buf.len() < self.cap {
            self.sum = self.sum + x;
            self.buf.push(x);
            proof {
                assert(self.buf@.drop_last() =~= old(self).buf@);
                assert(self@ =~= old(self)@.push(x));
            }
        } else {
            let evicted = self.buf[self.start];
            proof {
                lemma_seq_sum_update(self.buf@, self.start as int, 0);
                lemma_seq_sum_bounds(self.buf@.update(self.start as int, 0), VAL_BOUND as int);
            }
            self.sum = self.sum - evicted + x;
            let s = self.start;
            self.buf[s] = x;
            self.start = if s + 1 == self.cap {
                0
            } else {
                s + 1
            };
            proof {
                lemma_seq_sum_update(old(self).buf@, s as int, x);
                assert(self@ =~= old(self)@.drop_first().push(x));
            }
        }
    }

    /// The integer mean of the held values, `0` when none are held.
    pub fn average(&self) -> (a: u64)
        requires
            self.inv(),
        ensures
            a == window_avg(self@),
            a <= VAL_BOUND,
    {
        proof {
            self.lemma_view_sum();
            lemma_seq_sum_bounds(self@, VAL_BOUND as int);
        }
        if self.buf.len() == 0 {
            0
        } else {
            proof {
                assert(seq_sum(self@) <= self@.len() * (VAL_BOUND as int));
                assert(seq_sum(self@) / (self@.len() as int) <= VAL_BOUND as int)
                    by (nonlinear_arith)
                    requires
                        self@.len() >= 1,
                        0 <= seq_sum(self@) <= self@.len() * (VAL_BOUND as int),
                ;
            }
            self.sum / (self.buf.len() as u64)
        }
    }

    /// Forget every held value; the window becomes empty.
    pub fn reset(&mut self)
        requires
            old(self).inv(),
        ensures
            final(self).inv(),
            final(self).spec_capacity() == old(self).spec_capacity(),
            final(self)@ =~= Seq::<u64>::empty(),
    {
        self.buf = Vec::new();
        self.start = 0;
        self.sum = 0;
    }
}

/// Adding to a full window keeps its length and shifts every value one
/// place toward the front: the oldest value is evicted.
pub proof fn lemma_push_bounded_evicts(s: Seq<u64>, x: u64, cap: int)
    requires
        s.len() == cap,
        cap >= 1,
    ensures
        push_bounded(s, x, cap).len() == cap,
        forall|i: int| 0 <= i < cap - 1 ==> #[trigger] push_bounded(s, x, cap)[i] == s[i + 1],
        push_bounded(s, x, cap)[cap - 1] == x,
{
}

/// The window a sequence of additions leaves behind, applied oldest first.
pub open spec fn apply_all(w: Seq<u64>, xs: Seq<u64>, cap: int) -> Seq<u64>
    decreases xs.len(),
{
    if xs.len() == 0 {
        w
    } else {
        push_bounded(apply_all(w, xs.drop_last(), cap), xs.last(), cap)
    }
}

/// After at least `cap` additions into an initially empty window, only the
/// last `cap` of the added values remain, in order: every earlier addition
/// has been evicted.
pub proof fn lemma_window_keeps_last(xs: Seq<u64>, cap: int)
    requires
        cap >= 1,
        xs.len() >= cap,
    ensures
        apply_all(Seq::<u64>::empty(), xs, cap) == xs.subrange(xs.len() - cap, xs.len() as int),
    decreases xs.len(),
{
    if xs.len() == cap {
        lemma_window_fills(xs, cap);
        assert(xs.subrange(0, cap) =~= xs);
    } else {
        lemma_window_keeps_last(xs.drop_last(), cap);
        let prev = apply_all(Seq::<u64>::empty(), xs.drop_last(), cap);
        assert(prev.len() == cap);
        assert(push_bounded(prev, xs.last(), cap) =~= xs.subrange(
            xs.len() - cap,
            xs.len() as int,
        ));
    }
}

/// Up to `cap` additions into an initially empty window just accumulate.
proof fn lemma_window_fills(xs: Seq<u64>, cap: int)
    requires
        cap >= 1,
        xs.len() <= cap,
    ensures
        apply_all(Seq::<u64>::empty(), xs, cap) == xs,
    decreases xs.len(),
{
    if xs.len() == 0 {
        assert(apply_all(Seq::<u64>::empty(), xs, cap) =~= xs);
    } else {
        lemma_window_fills(xs.drop_last(), cap);
        assert(push_bounded(xs.drop_last(), xs.last(), cap) =~= xs);
    }
}

} // verus!
