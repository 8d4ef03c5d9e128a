//! Per-cell timeline: a fixed-capacity ring buffer of confirmed polarity-flip
//! timestamps together with the anchor time of the cell's decaying activity
//! score.  The score itself is a real number maintained by the driver from
//! the anchor times published here.

use vstd::prelude::*;
use vstd::arithmetic::div_mod::{
    lemma_add_mod_noop, lemma_mod_equivalence, lemma_mod_multiples_vanish, lemma_small_mod,
};

use crate::{FFT_PERIOD, FFT_SAMPLES, TIMELINE_LENGTH, UNSET_TIMESTAMP};

verus! {

/// Mathematical model of a [`Timeline`]: the ring-buffer slots, the write
/// cursor, the activity anchor time, and the full history of pushed flip
/// timestamps (oldest first) that the ring is a suffix of.
pub ghost struct TimelineModel {
    pub slots: Seq<u64>,
    pub cursor: int,
    pub anchor: u64,
    pub hist: Seq<u64>,
}

impl TimelineModel {
    /// Ring-buffer well-formedness: the cursor is the push count modulo the
    /// capacity, every one of the most recent pushes sits in its slot, slots
    /// never written hold the sentinel, and the anchor is the last push.
    pub open spec fn inv(self) -> bool {
        let n = self.hist.len() as int;
        let cap = TIMELINE_LENGTH as int;
        &&& self.slots.len() == cap
        &&& 0 <= self.cursor < cap
        &&& self.cursor == n % cap
        &&& forall|j: int|
            0 <= j < n && n - cap <= j ==> self.slots[j % cap] == #[trigger] self.hist[j]
        &&& forall|k: int| n <= k < cap ==> self.slots[k] == UNSET_TIMESTAMP
        &&& forall|j: int| 0 <= j < n ==> #[trigger] self.hist[j] != UNSET_TIMESTAMP
        &&& forall|k: int|
            0 <= k < cap && #[trigger] self.slots[k] != UNSET_TIMESTAMP ==> exists|j: int|
                0 <= j < n && #[trigger] self.hist[j] == self.slots[k]
        &&& self.anchor == if n == 0 { 0u64 } else { self.hist[n - 1] }
    }
}

/// The model of a timeline that has never recorded a flip.
pub open spec fn spec_initial_timeline() -> TimelineModel {
    TimelineModel {
        slots: Seq::new(TIMELINE_LENGTH as nat, |i: int| UNSET_TIMESTAMP),
        cursor: 0,
        anchor: 0,
        hist: Seq::empty(),
    }
}

/// The effect of recording one flip at time `t`: the slot under the cursor is
/// overwritten, the cursor moves on cyclically, and `t` becomes the anchor.
pub open spec fn spec_push(m: TimelineModel, t: u64) -> TimelineModel {
    TimelineModel {
        slots: m.slots.update(m.cursor, t),
        cursor: (m.cursor + 1) % (TIMELINE_LENGTH as int),
        anchor: t,
        hist: m.hist.push(t),
    }
}

/// How many whole indicator sample periods (rounded to nearest, half away
/// from zero) separate the flip at `ts` from the evaluation time `t`.
pub open spec fn spec_rev_index(t: u64, ts: u64) -> int
    recommends
        ts <= t,
{
    ((t - ts) + (FFT_PERIOD as int) / 2) / (FFT_PERIOD as int)
}

/// Whether the flip stored in slot `k` sets indicator sample `p`: the flip
/// must be real, at most `FFT_SAMPLES` periods old, and land on `p` counted
/// back from the most recent sample.
pub open spec fn spec_contributes(slots: Seq<u64>, t: u64, k: int, p: int) -> bool {
    &&& 0 <= k < slots.len()
    &&& slots[k] != UNSET_TIMESTAMP
    &&& slots[k] <= t
    &&& spec_rev_index(t, slots[k]) < FFT_SAMPLES as int
    &&& p == (FFT_SAMPLES - 1) - spec_rev_index(t, slots[k])
}

/// The indicator signal at evaluation time `t`: sample `p` is set exactly
/// when some stored flip lands on it.
pub open spec fn spec_indicator(slots: Seq<u64>, t: u64) -> Seq<bool> {
    Seq::new(FFT_SAMPLES as nat, |p: int| exists|k: int| spec_contributes(slots, t, k, p))
}

/// Ring buffer of the most recent flip timestamps of one cell, plus the
/// anchor time at which the cell's decaying activity score was last updated.
pub struct Timeline {
    timestamps: Vec<u64>,
    timestamps_index: usize,
    activity_t: u64,
    hist: Ghost<Seq<u64>>,
}

impl View for Timeline {
    type V = TimelineModel;

    closed spec fn view(&self) -> TimelineModel {
        TimelineModel {
            slots: self.timestamps@,
            cursor: self.timestamps_index as int,
            anchor: self.activity_t,
            hist: self.hist@,
        }
    }
}

impl Timeline {
    /// A timeline with all slots unset, the cursor at the start and the
    /// anchor at time zero.
    pub fn new() -> (r: Timeline)
        ensures
            r@ == spec_initial_timeline(),
            r@.inv(),
    {
        let mut timestamps: Vec<u64> = Vec::new();
        while timestamps.len() < TIMELINE_LENGTH
            invariant
                timestamps@.len() <= TIMELINE_LENGTH,
                forall|j: int| 0 <= j < timestamps@.len() ==> timestamps@[j] == UNSET_TIMESTAMP,
            decreases TIMELINE_LENGTH - timestamps@.len(),
        {
            timestamps.push(UNSET_TIMESTAMP);
        }
        let r = Timeline { timestamps, timestamps_index: 0, activity_t: 0, hist: Ghost(Seq::empty()) };
        proof {
            assert(r@.slots =~= spec_initial_timeline().slots);
            assert(r@.hist =~= spec_initial_timeline().hist);
        }
        r
    }

    /// The anchor time: the timestamp of the most recent recorded flip, or
    /// zero if none was ever recorded.
    pub fn anchor_t(&self) -> (r: u64)
        ensures
            r == self@.anchor,
    {
        self.activity_t
    }

    /// The current write cursor of the ring buffer.
    pub fn cursor(&self) -> (r: usize)
        ensures
            r == self@.cursor,
    {
        self.timestamps_index
    }

    /// The raw content of ring-buffer slot `k` (possibly the sentinel).
    pub fn slot(&self, k: usize) -> (r: u64)
        requires
            self@.inv(),
            k < TIMELINE_LENGTH,
        ensures
            r == self@.slots[k as int],
    {
        self.timestamps[k]
    }

    /// Record a confirmed flip at time `t`: overwrite the oldest slot, move
    /// the cursor, and make `t` the new anchor.
    pub fn push(&mut self, t: u64)
        requires
            old(self)@.inv(),
            t != UNSET_TIMESTAMP,
        ensures
            final(self)@ == spec_push(old(self)@, t),
            final(self)@.inv(),
    {
        proof {
            lemma_push_preserves_inv(old(self)@, t);
        }
        self.timestamps[self.timestamps_index] = t;
        self.timestamps_index = (self.timestamps_index + 1) % TIMELINE_LENGTH;
        self.activity_t = t;
        self.hist = Ghost(self.hist@.push(t));
    }

    /// Write into `fft_samples` the indicator signal of this timeline at
    /// evaluation time `t`: one `true` sample for every stored flip at most
    /// one indicator window old, the most recent flips landing last.
    pub fn fill(&self, fft_samples: &mut Vec<bool>, t: u64)
        requires
            self@.inv(),
            old(fft_samples)@.len() == FFT_SAMPLES,
            forall|k: int|
                0 <= k < TIMELINE_LENGTH && #[trigger] self@.slots[k] != UNSET_TIMESTAMP
                    ==> self@.slots[k] <= t,
        ensures
            final(fft_samples)@ == spec_indicator(self@.slots, t),
    {
        let ghost slots = self@.slots;
        let mut p: usize = 0;
        while p < FFT_SAMPLES
            invariant
                fft_samples@.len() == FFT_SAMPLES,
                p <= FFT_SAMPLES,
                forall|q: int| 0 <= q < p ==> !fft_samples@[q],
            decreases FFT_SAMPLES - p,
        {
            fft_samples[p] = false;
            p += 1;
        }
        let mut k: usize = 0;
        while k < TIMELINE_LENGTH
            invariant
                self@.inv(),
                slots == self@.slots,
                forall|k2: int|
                    0 <= k2 < TIMELINE_LENGTH && #[trigger] slots[k2] != UNSET_TIMESTAMP
                        ==> slots[k2] <= t,
                k <= TIMELINE_LENGTH,
                fft_samples@.len() == FFT_SAMPLES,
                forall|q: int|
                    0 <= q < FFT_SAMPLES ==> (#[trigger] fft_samples@[q] <==> exists|k2: int|
                        k2 < k && spec_contributes(slots, t, k2, q)),
            decreases TIMELINE_LENGTH - k,
        {
            let ts = self.slot(k);
            if ts != UNSET_TIMESTAMP {
                let d = t - ts;
                if d <= 999499 {
                    let ri = (d + 500) / 1000;
                    assert(ri == spec_rev_index(t, ts));
                    assert(ri < 1000);
                    fft_samples[(FFT_SAMPLES - 1) - (ri as usize)] = true;
                    proof {
                        let q0 = (FFT_SAMPLES - 1) - spec_rev_index(t, ts);
                        assert(spec_contributes(slots, t, k as int, q0));
                    }
                } else {
                    proof {
                        assert(spec_rev_index(t, ts) >= FFT_SAMPLES as int);
                        assert forall|q: int| 0 <= q < FFT_SAMPLES implies
                            !spec_contributes(slots, t, k as int, q) by {}
                    }
                }
            }
            k += 1;
        }
        proof {
            assert(fft_samples@ =~= spec_indicator(slots, t));
        }
    }
}

/// If two positions are less than the ring capacity apart, they occupy
/// distinct slots.
proof fn lemma_window_distinct(n: int, j: int, cap: int)
    requires
        cap > 0,
        0 < n - j < cap,
    ensures
        j % cap != n % cap,
{
    lemma_mod_equivalence(n, j, cap);
    lemma_small_mod((n - j) as nat, cap as nat);
}

/// Pushing one timestamp keeps the ring-buffer invariant.
pub proof fn lemma_push_preserves_inv(m: TimelineModel, t: u64)
    requires
        m.inv(),
        t != UNSET_TIMESTAMP,
    ensures
        spec_push(m, t).inv(),
{
    let cap = TIMELINE_LENGTH as int;
    let n = m.hist.len() as int;
    let m2 = spec_push(m, t);
    lemma_small_mod(1nat, cap as nat);
    lemma_add_mod_noop(n, 1, cap);
    assert(m2.cursor == (n + 1) % cap);
    assert forall|j: int| 0 <= j < n + 1 && n + 1 - cap <= j implies m2.slots[j % cap]
        == #[trigger] m2.hist[j] by {
        if j == n {
            assert(m2.slots[n % cap] == t);
        } else {
            lemma_window_distinct(n, j, cap);
            assert(m.slots[j % cap] == m.hist[j]);
        }
    }
    assert forall|k: int| n + 1 <= k < cap implies m2.slots[k] == UNSET_TIMESTAMP by {
        lemma_small_mod(n as nat, cap as nat);
    }
    assert forall|k: int|
        0 <= k < cap && #[trigger] m2.slots[k] != UNSET_TIMESTAMP implies exists|j: int|
        0 <= j < n + 1 && #[trigger] m2.hist[j] == m2.slots[k] by {
        if k == m.cursor {
            assert(m2.hist[n] == m2.slots[k]);
        } else {
            assert(m.slots[k] != UNSET_TIMESTAMP);
            let j = choose|j: int| 0 <= j < n && #[trigger] m.hist[j] == m.slots[k];
            assert(m2.hist[j] == m2.slots[k]);
        }
    }
}

/// Law: once at least as many flips as the ring capacity have been recorded,
/// the ring holds exactly the most recent `TIMELINE_LENGTH` flip timestamps,
/// oldest first when read in ring order starting at the cursor; every older
/// flip has been evicted.
pub proof fn lemma_ring_holds_most_recent(m: TimelineModel)
    requires
        m.inv(),
        m.hist.len() >= TIMELINE_LENGTH,
    ensures
        Seq::new(TIMELINE_LENGTH as nat, |i: int| m.slots[(m.cursor + i) % (TIMELINE_LENGTH as int)])
            =~= m.hist.subrange(m.hist.len() - TIMELINE_LENGTH, m.hist.len() as int),
{
    let cap = TIMELINE_LENGTH as int;
    let n = m.hist.len() as int;
    assert forall|i: int| 0 <= i < cap implies m.slots[(m.cursor + i) % cap]
        == #[trigger] m.hist.subrange(n - cap, n)[i] by {
        let j = n - cap + i;
        assert(m.slots[j % cap] == m.hist[j]);
        lemma_mod_multiples_vanish(-1, n + i, cap);
        assert(j % cap == (n + i) % cap);
        lemma_small_mod(i as nat, cap as nat);
        lemma_add_mod_noop(n, i, cap);
        assert((m.cursor + i) % cap == (n + i) % cap);
    }
}

/// Law: a flip more than one indicator window before the evaluation time is
/// dropped; when every stored flip is at least `FFT_SAMPLES` indicator
/// periods old, the indicator signal is entirely zero.
pub proof fn lemma_window_exclusion(slots: Seq<u64>, t: u64)
    requires
        slots.len() == TIMELINE_LENGTH,
        forall|k: int|
            0 <= k < slots.len() && #[trigger] slots[k] != UNSET_TIMESTAMP ==> slots[k] <= t
                && spec_rev_index(t, slots[k]) >= FFT_SAMPLES as int,
    ensures
        forall|p: int| 0 <= p < FFT_SAMPLES ==> !spec_indicator(slots, t)[p],
{
    assert forall|p: int| 0 <= p < FFT_SAMPLES implies !spec_indicator(slots, t)[p] by {
        assert forall|k: int| !spec_contributes(slots, t, k, p) by {
            if 0 <= k < slots.len() && slots[k] != UNSET_TIMESTAMP {
                assert(spec_rev_index(t, slots[k]) >= FFT_SAMPLES as int);
            }
        }
    }
}

/// A flip strictly more than one second (one million microseconds) old never
/// reaches the indicator window.
pub proof fn lemma_rev_index_over_second(t: u64, ts: u64)
    requires
        ts <= t,
        t - ts >= 999500,
    ensures
        spec_rev_index(t, ts) >= FFT_SAMPLES as int,
{
}

} // verus!
