//! The streaming engine: the downsampled grid of signed timestamps, signs and
//! timelines, and the fixed-period sample clock.  Events are applied one at a
//! time; whenever the next event's timestamp lies strictly beyond the current
//! tick boundary, the caller runs one tick (ranking, indicator signals and
//! their transforms) against the state as it stands and then advances the
//! clock, repeating until the event no longer crosses the boundary.

use vstd::prelude::*;

use crate::consensus::{
    consensus, spec_cell_index, spec_consensus, spec_interior, GRID_CELLS,
};
use crate::timeline::{
    lemma_push_preserves_inv, spec_initial_timeline, spec_indicator, spec_push, Timeline,
    TimelineModel,
};
use crate::{
    Event, Sign, SignedTimestamp, FFT_SAMPLES, HEIGHT, SAMPLING_PERIOD, SPATIAL_DOWNSAMPLING,
    TIMELINE_LENGTH, UNSET_TIMESTAMP, WIDTH,
};

verus! {

/// A confirmed polarity flip: the cell it happened in, its timestamp, and the
/// cell's activity anchor just before the flip was recorded.  The driver
/// replays the activity recurrence from these records.
#[derive(Clone, Copy, Debug, PartialEq, Eq, Structural)]
pub struct Flip {
    pub cell: usize,
    pub t: u64,
    pub prev_anchor: u64,
}

/// Mathematical model of the whole engine.
#[verifier::ext_equal]
pub ghost struct EngineModel {
    pub signed: Seq<SignedTimestamp>,
    pub signs: Seq<Sign>,
    pub timelines: Seq<TimelineModel>,
    pub sample_index: int,
    pub next_sample_t: u64,
}

/// The tick boundary after `index` ticks: `index` sampling periods, except
/// that the very first boundary is one period and the boundary saturates at
/// the top of the timestamp range.
pub open spec fn spec_boundary(index: int) -> u64 {
    if index == 0 {
        SAMPLING_PERIOD
    } else if index * (SAMPLING_PERIOD as int) <= u64::MAX as int {
        (index * (SAMPLING_PERIOD as int)) as u64
    } else {
        u64::MAX
    }
}

/// An event the engine can take: coordinates on the sensor and a timestamp
/// below the slot sentinel.
pub open spec fn spec_valid_event(ev: Event) -> bool {
    &&& ev.x < WIDTH
    &&& ev.y < HEIGHT
    &&& ev.t < UNSET_TIMESTAMP
}

impl EngineModel {
    /// Engine well-formedness: one entry of each array per grid cell, every
    /// timeline well formed, every recorded flip timestamp at or before the
    /// current tick boundary, and the boundary determined by the tick index.
    pub open spec fn inv(self) -> bool {
        &&& self.signed.len() == GRID_CELLS
        &&& self.signs.len() == GRID_CELLS
        &&& self.timelines.len() == GRID_CELLS
        &&& forall|c: int| 0 <= c < GRID_CELLS ==> (#[trigger] self.timelines[c]).inv()
        &&& forall|c: int, k: int|
            0 <= c < GRID_CELLS && 0 <= k < TIMELINE_LENGTH
                && #[trigger] self.timelines[c].slots[k] != UNSET_TIMESTAMP
                ==> self.timelines[c].slots[k] <= self.next_sample_t
        &&& 0 <= self.sample_index
        &&& self.next_sample_t == spec_boundary(self.sample_index)
    }
}

/// The model of a freshly constructed engine: everything unset, tick index
/// zero, and the first boundary one sampling period in.
pub open spec fn spec_initial_engine() -> EngineModel {
    EngineModel {
        signed: Seq::new(GRID_CELLS as nat, |i: int| SignedTimestamp::Unset),
        signs: Seq::new(GRID_CELLS as nat, |i: int| Sign::Unknown),
        timelines: Seq::new(GRID_CELLS as nat, |i: int| spec_initial_timeline()),
        sample_index: 0,
        next_sample_t: SAMPLING_PERIOD,
    }
}

/// The signed timestamp an event stores in its cell.
pub open spec fn spec_event_stamp(ev: Event) -> SignedTimestamp {
    if ev.on {
        SignedTimestamp::Positive(ev.t)
    } else {
        SignedTimestamp::Negative(ev.t)
    }
}

/// The downsampled x coordinate of an event.
pub open spec fn spec_event_cx(ev: Event) -> int {
    ev.x as int / (SPATIAL_DOWNSAMPLING as int)
}

/// The downsampled y coordinate of an event.
pub open spec fn spec_event_cy(ev: Event) -> int {
    ev.y as int / (SPATIAL_DOWNSAMPLING as int)
}

/// The grid cell an event lands in.
pub open spec fn spec_event_cell(ev: Event) -> int {
    spec_cell_index(spec_event_cx(ev), spec_event_cy(ev))
}

/// The effect of applying one event to the grid, with the clock untouched:
/// the signed timestamp is stored; then, if the cell is interior and its
/// window reaches a consensus, a flip against a previously recorded opposite
/// sign pushes the timestamp into the cell's timeline, and the consensus
/// becomes the cell's recorded sign.
pub open spec fn spec_apply_event(m: EngineModel, ev: Event) -> EngineModel {
    let cx = spec_event_cx(ev);
    let cy = spec_event_cy(ev);
    let i = spec_event_cell(ev);
    let m1 = EngineModel { signed: m.signed.update(i, spec_event_stamp(ev)), ..m };
    if spec_interior(cx, cy) {
        let s = spec_consensus(m1.signed, cx, cy);
        if s != Sign::Unknown {
            let m2 = if m1.signs[i] != Sign::Unknown && m1.signs[i] != s {
                EngineModel {
                    timelines: m1.timelines.update(i, spec_push(m1.timelines[i], ev.t)),
                    ..m1
                }
            } else {
                m1
            };
            EngineModel { signs: m2.signs.update(i, s), ..m2 }
        } else {
            m1
        }
    } else {
        m1
    }
}

/// The flip record, if any, that applying `ev` produces.
pub open spec fn spec_flip(m: EngineModel, ev: Event) -> Option<Flip> {
    let cx = spec_event_cx(ev);
    let cy = spec_event_cy(ev);
    let i = spec_event_cell(ev);
    let signed1 = m.signed.update(i, spec_event_stamp(ev));
    if spec_interior(cx, cy) {
        let s = spec_consensus(signed1, cx, cy);
        if s != Sign::Unknown && m.signs[i] != Sign::Unknown && m.signs[i] != s {
            Some(Flip { cell: i as usize, t: ev.t, prev_anchor: m.timelines[i].anchor })
        } else {
            Option::None
        }
    } else {
        Option::None
    }
}

/// Applying a sequence of events in order, with the clock untouched.
pub open spec fn spec_apply_events(m: EngineModel, evs: Seq<Event>) -> EngineModel
    decreases evs.len(),
{
    if evs.len() == 0 {
        m
    } else {
        spec_apply_events(spec_apply_event(m, evs[0]), evs.skip(1))
    }
}

/// The flip records a sequence of events produces, in order.
pub open spec fn spec_flips(m: EngineModel, evs: Seq<Event>) -> Seq<Flip>
    decreases evs.len(),
{
    if evs.len() == 0 {
        Seq::empty()
    } else {
        let rest = spec_flips(spec_apply_event(m, evs[0]), evs.skip(1));
        match spec_flip(m, evs[0]) {
            Some(f) => seq![f] + rest,
            Option::None => rest,
        }
    }
}

/// Applying events appends to the right: running one more event is the same
/// as running the prefix and then that event.
pub proof fn lemma_apply_events_snoc(m: EngineModel, evs: Seq<Event>, ev: Event)
    ensures
        spec_apply_events(m, evs.push(ev)) == spec_apply_event(spec_apply_events(m, evs), ev),
        spec_flips(m, evs.push(ev)) =~= spec_flips(m, evs) + (match spec_flip(
            spec_apply_events(m, evs),
            ev,
        ) {
            Some(f) => seq![f],
            Option::None => Seq::<Flip>::empty(),
        }),
    decreases evs.len(),
{
    let tail = (match spec_flip(spec_apply_events(m, evs), ev) {
        Some(f) => seq![f],
        Option::None => Seq::<Flip>::empty(),
    });
    if evs.len() == 0 {
        reveal_with_fuel(spec_apply_events, 2);
        reveal_with_fuel(spec_flips, 2);
        assert(evs.push(ev)[0] == ev);
        assert(evs.push(ev).skip(1) =~= Seq::<Event>::empty());
        assert(spec_apply_events(m, evs.push(ev)) == spec_apply_event(m, ev));
        assert(spec_flips(spec_apply_event(m, ev), evs.push(ev).skip(1))
            =~= Seq::<Flip>::empty());
        assert(spec_flips(m, evs.push(ev)) =~= spec_flips(m, evs) + tail);
    } else {
        let m1 = spec_apply_event(m, evs[0]);
        let evs2 = evs.skip(1);
        assert(evs.push(ev)[0] == evs[0]);
        assert(evs.push(ev).skip(1) =~= evs2.push(ev));
        lemma_apply_events_snoc(m1, evs2, ev);
        assert(spec_apply_events(m, evs.push(ev)) == spec_apply_events(m1, evs2.push(ev)));
        assert(spec_apply_events(m, evs) == spec_apply_events(m1, evs2));
        assert(spec_flips(m, evs.push(ev)) == (match spec_flip(m, evs[0]) {
            Some(f) => seq![f] + spec_flips(m1, evs2.push(ev)),
            Option::None => spec_flips(m1, evs2.push(ev)),
        }));
        assert(spec_flips(m1, evs2.push(ev)) =~= spec_flips(m1, evs2) + tail);
        assert(spec_flips(m, evs.push(ev)) =~= spec_flips(m, evs) + tail);
    }
}

/// Applying one valid, boundary-respecting event keeps the engine well
/// formed and leaves the clock untouched.
pub proof fn lemma_apply_event_preserves_inv(m: EngineModel, ev: Event)
    requires
        m.inv(),
        spec_valid_event(ev),
        ev.t <= m.next_sample_t,
    ensures
        spec_apply_event(m, ev).inv(),
        spec_apply_event(m, ev).sample_index == m.sample_index,
        spec_apply_event(m, ev).next_sample_t == m.next_sample_t,
{
    let cx = spec_event_cx(ev);
    let cy = spec_event_cy(ev);
    let i = spec_event_cell(ev);
    assert(0 <= cx < 320 && 0 <= cy < 180);
    assert(0 <= i < GRID_CELLS);
    let m2 = spec_apply_event(m, ev);
    if spec_interior(cx, cy) {
        let s = spec_consensus(m.signed.update(i, spec_event_stamp(ev)), cx, cy);
        if s != Sign::Unknown && m.signs[i] != Sign::Unknown && m.signs[i] != s {
            lemma_push_preserves_inv(m.timelines[i], ev.t);
            assert forall|c: int, k: int|
                0 <= c < GRID_CELLS && 0 <= k < TIMELINE_LENGTH
                    && #[trigger] m2.timelines[c].slots[k] != UNSET_TIMESTAMP
                implies m2.timelines[c].slots[k] <= m2.next_sample_t by {
                if c == i {
                    assert(m2.timelines[c].slots == m.timelines[i].slots.update(
                        m.timelines[i].cursor,
                        ev.t,
                    ));
                }
            }
        }
    }
}

/// Advancing the clock never moves the boundary backwards.
pub proof fn lemma_boundary_monotone(index: int)
    requires
        index >= 0,
    ensures
        spec_boundary(index) <= spec_boundary(index + 1),
{
}

/// How many ticks fire before an event with timestamp `t` can be applied,
/// starting from tick index `index`: one for every boundary the timestamp
/// lies strictly beyond.
pub open spec fn spec_ticks_from(index: int, t: u64) -> nat
    decreases (t as int) / (SAMPLING_PERIOD as int) + 2 - index,
        when index >= 0
    via spec_ticks_from_decreases
{
    if t > spec_boundary(index) {
        (1 + spec_ticks_from(index + 1, t)) as nat
    } else {
        0
    }
}

#[via_fn]
proof fn spec_ticks_from_decreases(index: int, t: u64) {
    if t > spec_boundary(index) {
        if index >= 1 {
            assert(index * (SAMPLING_PERIOD as int) < t as int);
            assert(index <= (t as int) / (SAMPLING_PERIOD as int)) by (nonlinear_arith)
                requires
                    index * (SAMPLING_PERIOD as int) < t as int,
                    index >= 1,
            ;
        }
    }
}

/// The boundaries of those ticks, in the order they fire.
pub open spec fn spec_tick_times_from(index: int, t: u64) -> Seq<u64>
    decreases (t as int) / (SAMPLING_PERIOD as int) + 2 - index,
        when index >= 0
    via spec_tick_times_from_decreases
{
    if t > spec_boundary(index) {
        seq![spec_boundary(index)] + spec_tick_times_from(index + 1, t)
    } else {
        Seq::empty()
    }
}

#[via_fn]
proof fn spec_tick_times_from_decreases(index: int, t: u64) {
    if t > spec_boundary(index) {
        if index >= 1 {
            assert(index * (SAMPLING_PERIOD as int) < t as int);
            assert(index <= (t as int) / (SAMPLING_PERIOD as int)) by (nonlinear_arith)
                requires
                    index * (SAMPLING_PERIOD as int) < t as int,
                    index >= 1,
            ;
        }
    }
}

/// One boundary per tick: a call that fires `n` ticks appends `n` entries to
/// the caller's estimate sequence.
pub proof fn lemma_tick_times_count(index: int, t: u64)
    requires
        index >= 0,
    ensures
        spec_tick_times_from(index, t).len() == spec_ticks_from(index, t),
    decreases (t as int) / (SAMPLING_PERIOD as int) + 2 - index,
{
    if t > spec_boundary(index) {
        if index >= 1 {
            assert(index * (SAMPLING_PERIOD as int) < t as int);
            assert(index <= (t as int) / (SAMPLING_PERIOD as int)) by (nonlinear_arith)
                requires
                    index * (SAMPLING_PERIOD as int) < t as int,
                    index >= 1,
            ;
        }
        lemma_tick_times_count(index + 1, t);
    }
}

/// One clock advance: the tick index moves on and the boundary follows it.
pub open spec fn spec_advance(m: EngineModel) -> EngineModel {
    EngineModel {
        sample_index: m.sample_index + 1,
        next_sample_t: spec_boundary(m.sample_index + 1),
        ..m
    }
}

/// `n` clock advances in a row.
pub open spec fn spec_advance_n(m: EngineModel, n: nat) -> EngineModel
    decreases n,
{
    if n == 0 {
        m
    } else {
        spec_advance(spec_advance_n(m, (n - 1) as nat))
    }
}

/// The full per-event step of the ingestion loop: fire every due tick (each
/// advancing the clock), then apply the event to the grid.  Returns the new
/// model and the tick times that fired.
pub open spec fn spec_run_event(m: EngineModel, ev: Event) -> (EngineModel, Seq<u64>) {
    let ticks = spec_tick_times_from(m.sample_index, ev.t);
    let m1 = spec_advance_n(m, ticks.len());
    (spec_apply_event(m1, ev), ticks)
}

/// Running a whole ordered batch of events, collecting all tick times.
pub open spec fn spec_run(m: EngineModel, evs: Seq<Event>) -> (EngineModel, Seq<u64>)
    decreases evs.len(),
{
    if evs.len() == 0 {
        (m, Seq::empty())
    } else {
        let stepped = spec_run_event(m, evs[0]);
        let rest = spec_run(stepped.0, evs.skip(1));
        (rest.0, stepped.1 + rest.1)
    }
}

/// Law: the engine is deterministic.  Equal initial states and equal input
/// batches give exactly the same final state and the same tick sequence, from
/// which the output spectrum and estimate sequence are computed.
pub proof fn lemma_run_deterministic(
    m1: EngineModel,
    m2: EngineModel,
    evs1: Seq<Event>,
    evs2: Seq<Event>,
)
    requires
        m1 == m2,
        evs1 == evs2,
    ensures
        spec_run(m1, evs1) == spec_run(m2, evs2),
{
}

/// Law: an event exactly at the boundary fires no tick; the boundary must be
/// strictly exceeded, and any strictly later timestamp fires at least one.
pub proof fn lemma_tick_boundary_exact(m: EngineModel, t: u64)
    requires
        m.inv(),
    ensures
        t <= m.next_sample_t ==> spec_ticks_from(m.sample_index, t) == 0,
        t > m.next_sample_t ==> spec_ticks_from(m.sample_index, t) >= 1,
{
}

/// Law: from any state past the very first boundary, an event that lands in
/// the `mticks`-th sampling period after the current boundary fires exactly
/// `mticks` catch-up ticks before the event itself is applied.  (From the
/// initial state the first boundary is repeated once, so one extra tick
/// fires; hence `index >= 1` below.)
pub proof fn lemma_catch_up_ticks(index: int, mticks: int, t: u64)
    requires
        1 <= index,
        0 <= mticks,
        (index + mticks) * (SAMPLING_PERIOD as int) <= u64::MAX as int,
        (index + mticks - 1) * (SAMPLING_PERIOD as int) < t as int,
        t as int <= (index + mticks) * (SAMPLING_PERIOD as int),
    ensures
        spec_ticks_from(index, t) == mticks,
    decreases mticks,
{
    if mticks == 0 {
        assert(spec_boundary(index) == index * (SAMPLING_PERIOD as int));
    } else {
        assert(spec_boundary(index) == index * (SAMPLING_PERIOD as int));
        assert(t > spec_boundary(index));
        lemma_catch_up_ticks(index + 1, mticks - 1, t);
    }
}

/// The initial-state quirk: the boundary after the very first tick equals the
/// very first boundary, so the first crossing fires one extra tick.
pub proof fn lemma_first_boundary_repeats(t: u64)
    requires
        t > SAMPLING_PERIOD,
    ensures
        spec_ticks_from(0, t) == 1 + spec_ticks_from(1, t),
        spec_boundary(0) == spec_boundary(1),
{
}

/// Law: a batch in which no event goes beyond the current boundary fires no
/// tick at all: the tick sequence stays empty, the clock does not move, and
/// the grid is exactly the grid after the plain event updates, so the
/// spectrum accumulator is never rebuilt.
pub proof fn lemma_zero_ticks(m: EngineModel, evs: Seq<Event>)
    requires
        m.inv(),
        forall|k: int| 0 <= k < evs.len() ==> spec_valid_event(#[trigger] evs[k]),
        forall|k: int| 0 <= k < evs.len() ==> (#[trigger] evs[k]).t <= m.next_sample_t,
    ensures
        spec_run(m, evs).1 =~= Seq::<u64>::empty(),
        spec_run(m, evs).0 == spec_apply_events(m, evs),
        spec_run(m, evs).0.sample_index == m.sample_index,
        spec_run(m, evs).0.next_sample_t == m.next_sample_t,
        spec_run(m, evs).0.inv(),
    decreases evs.len(),
{
    if evs.len() == 0 {
    } else {
        let ev = evs[0];
        assert(spec_tick_times_from(m.sample_index, ev.t) =~= Seq::<u64>::empty());
        let m1 = spec_apply_event(m, ev);
        lemma_apply_event_preserves_inv(m, ev);
        assert(forall|k: int|
            0 <= k < evs.skip(1).len() ==> #[trigger] evs.skip(1)[k] == evs[k + 1]);
        lemma_zero_ticks(m1, evs.skip(1));
    }
}

/// Law: an event in a border cell stores its signed timestamp but never
/// touches any recorded sign or any timeline, whatever its neighborhood
/// holds.
pub proof fn lemma_border_inert(m: EngineModel, ev: Event)
    requires
        !spec_interior(spec_event_cx(ev), spec_event_cy(ev)),
    ensures
        spec_apply_event(m, ev).signs == m.signs,
        spec_apply_event(m, ev).timelines == m.timelines,
        spec_flip(m, ev) is None,
{
}

/// The engine: grid state, per-cell timelines and the sample clock.  One
/// instance owns all of its state exclusively; a batch is processed to
/// completion by repeated [`RpmCalculator::next_tick`] /
/// [`RpmCalculator::advance_tick`] rounds.
pub struct RpmCalculator {
    signed_timestamps: Vec<SignedTimestamp>,
    timelines: Vec<Timeline>,
    signs: Vec<Sign>,
    sample_index: usize,
    next_sample_t: u64,
}

impl View for RpmCalculator {
    type V = EngineModel;

    closed spec fn view(&self) -> EngineModel {
        EngineModel {
            signed: self.signed_timestamps@,
            signs: self.signs@,
            timelines: self.timelines@.map_values(|tl: Timeline| tl@),
            sample_index: self.sample_index as int,
            next_sample_t: self.next_sample_t,
        }
    }
}

impl RpmCalculator {
    /// The engine is well formed exactly when its model is.
    pub open spec fn inv(&self) -> bool {
        self@.inv()
    }

    /// A fresh engine: grid and timelines zero- or sentinel-initialized, tick
    /// index zero, first boundary one sampling period in.
    pub fn new() -> (r: RpmCalculator)
        ensures
            r@ == spec_initial_engine(),
            r.inv(),
    {
        let mut signed_timestamps: Vec<SignedTimestamp> = Vec::new();
        let mut signs: Vec<Sign> = Vec::new();
        let mut timelines: Vec<Timeline> = Vec::new();
        while signed_timestamps.len() < GRID_CELLS
            invariant
                signed_timestamps@.len() <= GRID_CELLS,
                forall|j: int|
                    0 <= j < signed_timestamps@.len() ==> signed_timestamps@[j]
                        == SignedTimestamp::Unset,
            decreases GRID_CELLS - signed_timestamps@.len(),
        {
            signed_timestamps.push(SignedTimestamp::Unset);
        }
        while signs.len() < GRID_CELLS
            invariant
                signs@.len() <= GRID_CELLS,
                forall|j: int| 0 <= j < signs@.len() ==> signs@[j] == Sign::Unknown,
            decreases GRID_CELLS - signs@.len(),
        {
            signs.push(Sign::Unknown);
        }
        while timelines.len() < GRID_CELLS
            invariant
                timelines@.len() <= GRID_CELLS,
                forall|j: int|
                    0 <= j < timelines@.len() ==> (#[trigger] timelines@[j])@
                        == spec_initial_timeline(),
            decreases GRID_CELLS - timelines@.len(),
        {
            timelines.push(Timeline::new());
        }
        let r = RpmCalculator {
            signed_timestamps,
            timelines,
            signs,
            sample_index: 0,
            next_sample_t: SAMPLING_PERIOD,
        };
        proof {
            assert(r@.signed =~= spec_initial_engine().signed);
            assert(r@.signs =~= spec_initial_engine().signs);
            assert(r@.timelines =~= spec_initial_engine().timelines);
            assert(r@ =~= spec_initial_engine());
        }
        r
    }

    /// The boundary the next tick will fire at (once strictly exceeded).
    pub fn next_sample_time(&self) -> (r: u64)
        ensures
            r == self@.next_sample_t,
    {
        self.next_sample_t
    }

    /// How many ticks have fired since construction.
    pub fn sample_idx(&self) -> (r: usize)
        ensures
            r == self@.sample_index,
    {
        self.sample_index
    }

    /// The recorded sign of a cell.
    pub fn sign_at(&self, cell: usize) -> (r: Sign)
        requires
            self.inv(),
            cell < GRID_CELLS,
        ensures
            r == self@.signs[cell as int],
    {
        self.signs[cell]
    }

    /// The signed timestamp stored at a cell.
    pub fn signed_at(&self, cell: usize) -> (r: SignedTimestamp)
        requires
            self.inv(),
            cell < GRID_CELLS,
        ensures
            r == self@.signed[cell as int],
    {
        self.signed_timestamps[cell]
    }

    /// A cell's timeline, for read-only inspection.
    pub fn timeline_at(&self, cell: usize) -> (r: &Timeline)
        requires
            self.inv(),
            cell < GRID_CELLS,
        ensures
            r@ == self@.timelines[cell as int],
            r@.inv(),
    {
        proof {
            assert(self@.timelines[cell as int] == self.timelines@[cell as int]@);
            assert(self@.timelines[cell as int].inv());
        }
        &self.timelines[cell]
    }

    /// Apply one event to the grid: store its signed timestamp, and on an
    /// interior cell run the sign-consensus scan, record a confirmed flip in
    /// the cell's timeline, and update the cell's sign.  The clock must have
    /// caught up first: the event may not lie beyond the current boundary.
    pub fn apply_event(&mut self, ev: Event) -> (r: Option<Flip>)
        requires
            old(self).inv(),
            spec_valid_event(ev),
            ev.t <= old(self)@.next_sample_t,
        ensures
            final(self).inv(),
            final(self)@ == spec_apply_event(old(self)@, ev),
            r == spec_flip(old(self)@, ev),
    {
        proof {
            lemma_apply_event_preserves_inv(old(self)@, ev);
        }
        let cx = ev.x / SPATIAL_DOWNSAMPLING;
        let cy = ev.y / SPATIAL_DOWNSAMPLING;
        assert(cx == spec_event_cx(ev) && cy == spec_event_cy(ev));
        assert(cx < 320 && cy < 180);
        let i = cx as usize + cy as usize * 320;
        assert(i == spec_event_cell(ev) && i < GRID_CELLS);
        let stamp = if ev.on {
            SignedTimestamp::Positive(ev.t)
        } else {
            SignedTimestamp::Negative(ev.t)
        };
        self.signed_timestamps[i] = stamp;
        let ghost m1 = EngineModel { signed: old(self)@.signed.update(i as int, stamp), ..old(self)@ };
        assert(self@ =~= m1);
        if 1 <= cx && cx < 319 && 1 <= cy && cy < 179 {
            assert(spec_interior(cx as int, cy as int));
            let s = consensus(&self.signed_timestamps, cx, cy);
            if s != Sign::Unknown {
                let previous = self.signs[i];
                let mut flip: Option<Flip> = Option::None;
                if previous != Sign::Unknown && previous != s {
                    let prev_anchor = self.timelines[i].anchor_t();
                    self.timelines[i].push(ev.t);
                    flip = Some(Flip { cell: i, t: ev.t, prev_anchor });
                    proof {
                        assert(self@.timelines =~= m1.timelines.update(
                            i as int,
                            spec_push(m1.timelines[i as int], ev.t),
                        ));
                    }
                }
                self.signs[i] = s;
                proof {
                    assert(self@ =~= spec_apply_event(old(self)@, ev));
                }
                flip
            } else {
                assert(self@ =~= spec_apply_event(old(self)@, ev));
                Option::None
            }
        } else {
            assert(!spec_interior(cx as int, cy as int));
            assert(self@ =~= spec_apply_event(old(self)@, ev));
            Option::None
        }
    }

    /// Walk the batch forward from `*pos`, applying every event that does not
    /// cross the current tick boundary and appending its flip records to
    /// `flips`.  Stops either at the end of the batch (`None`) or at the
    /// first event strictly beyond the boundary (`Some(boundary)`); in the
    /// latter case the caller must run one tick at that boundary, advance the
    /// clock, and call again.
    pub fn next_tick(&mut self, events: &Vec<Event>, pos: &mut usize, flips: &mut Vec<Flip>) -> (r:
        Option<u64>)
        requires
            old(self).inv(),
            *old(pos) <= events@.len(),
            forall|k: int|
                *old(pos) <= k < events@.len() ==> spec_valid_event(#[trigger] events@[k]),
        ensures
            final(self).inv(),
            *old(pos) <= *final(pos) <= events@.len(),
            final(self)@ == spec_apply_events(
                old(self)@,
                events@.subrange(*old(pos) as int, *final(pos) as int),
            ),
            final(flips)@ == old(flips)@ + spec_flips(
                old(self)@,
                events@.subrange(*old(pos) as int, *final(pos) as int),
            ),
            final(self)@.sample_index == old(self)@.sample_index,
            final(self)@.next_sample_t == old(self)@.next_sample_t,
            forall|k: int|
                *old(pos) <= k < *final(pos) ==> (#[trigger] events@[k]).t
                    <= old(self)@.next_sample_t,
            match r {
                Some(b) => *final(pos) < events@.len() && b == old(self)@.next_sample_t
                    && events@[*final(pos) as int].t > b,
                Option::None => *final(pos) == events@.len(),
            },
    {
        let ghost m0 = old(self)@;
        let ghost p0 = *old(pos) as int;
        let ghost f0 = old(flips)@;
        proof {
            assert(events@.subrange(p0, p0) =~= Seq::<Event>::empty());
            assert(flips@ =~= f0 + spec_flips(m0, events@.subrange(p0, p0)));
        }
        while *pos < events.len()
            invariant
                self.inv(),
                p0 == *old(pos) as int,
                m0 == old(self)@,
                f0 == old(flips)@,
                p0 <= *pos as int <= events@.len(),
                forall|k: int| p0 <= k < events@.len() ==> spec_valid_event(#[trigger] events@[k]),
                self@ == spec_apply_events(m0, events@.subrange(p0, *pos as int)),
                flips@ == f0 + spec_flips(m0, events@.subrange(p0, *pos as int)),
                self@.sample_index == m0.sample_index,
                self@.next_sample_t == m0.next_sample_t,
                forall|k: int| p0 <= k < *pos as int ==> (#[trigger] events@[k]).t <= m0.next_sample_t,
            decreases events@.len() - *pos as int,
        {
            let ev = events[*pos];
            if ev.t > self.next_sample_t {
                return Some(self.next_sample_t);
            }
            let ghost prefix = events@.subrange(p0, *pos as int);
            proof {
                lemma_apply_events_snoc(m0, prefix, ev);
                assert(events@.subrange(p0, *pos as int + 1) =~= prefix.push(ev));
            }
            let flip = self.apply_event(ev);
            match flip {
                Some(f) => {
                    flips.push(f);
                },
                Option::None => {},
            }
            proof {
                assert(flips@ =~= f0 + spec_flips(m0, events@.subrange(p0, *pos as int + 1)));
            }
            *pos += 1;
        }
        Option::None
    }

    /// Move the clock one tick on: the tick index advances and the boundary
    /// becomes that many sampling periods (saturating at the top of the
    /// timestamp range).
    pub fn advance_tick(&mut self)
        requires
            old(self).inv(),
            old(self)@.sample_index < usize::MAX as int,
        ensures
            final(self).inv(),
            final(self)@ == spec_advance(old(self)@),
    {
        proof {
            lemma_boundary_monotone(old(self)@.sample_index);
        }
        self.sample_index = self.sample_index + 1;
        let idx = self.sample_index as u64;
        assert(u64::MAX / SAMPLING_PERIOD == 184467440737095);
        if idx <= u64::MAX / SAMPLING_PERIOD {
            self.next_sample_t = idx * SAMPLING_PERIOD;
        } else {
            self.next_sample_t = u64::MAX;
        }
        assert(self@.next_sample_t == spec_boundary(self@.sample_index));
    }

    /// Write into `fft_samples` the indicator signal of one cell, evaluated
    /// at time `t` (during a tick, the timestamp of the event that crossed
    /// the boundary): one `true` sample per stored flip at most one indicator
    /// window old, most recent flips last.  Every recorded flip lies at or
    /// before the current boundary, so any `t` from the boundary on is valid.
    pub fn fill_indicator(&self, cell: usize, fft_samples: &mut Vec<bool>, t: u64)
        requires
            self.inv(),
            cell < GRID_CELLS,
            old(fft_samples)@.len() == FFT_SAMPLES,
            t >= self@.next_sample_t,
        ensures
            final(fft_samples)@ == spec_indicator(self@.timelines[cell as int].slots, t),
    {
        proof {
            assert(self@.timelines[cell as int] == self.timelines@[cell as int]@);
            assert(self@.timelines[cell as int].inv());
        }
        self.timelines[cell].fill(fft_samples, t);
    }
}

} // verus!

