use figet_spinner::consensus::GRID_CELLS;
use figet_spinner::engine::{Flip, RpmCalculator};
use figet_spinner::ranking::select_most_active;
use figet_spinner::{
    Event, Sign, SignedTimestamp, ACTIVITY_TAU, FFT_SAMPLES, SAMPLING_PERIOD,
};

fn ev(t: u64, x: u16, y: u16, on: bool) -> Event {
    Event { t, x, y, on }
}

/// Drive a batch the way the driver does: fire every due tick, then apply.
fn run_batch(engine: &mut RpmCalculator, events: &Vec<Event>) -> (Vec<u64>, Vec<Flip>) {
    let mut pos: usize = 0;
    let mut flips: Vec<Flip> = Vec::new();
    let mut ticks: Vec<u64> = Vec::new();
    while let Some(boundary) = engine.next_tick(events, &mut pos, &mut flips) {
        ticks.push(boundary);
        engine.advance_tick();
    }
    (ticks, flips)
}

/// Append the eight neighbors of cell (cx, cy) and then the cell itself, all
/// with polarity `on`, at times t0, t0+step, ...; returns the center's time.
fn surround(events: &mut Vec<Event>, cx: u16, cy: u16, on: bool, t0: u64, step: u64) -> u64 {
    let mut t = t0;
    for (dx, dy) in [
        (-1i32, -1i32),
        (0, -1),
        (1, -1),
        (-1, 0),
        (1, 0),
        (-1, 1),
        (0, 1),
        (1, 1),
    ] {
        let x = ((cx as i32 + dx) * 4) as u16;
        let y = ((cy as i32 + dy) * 4) as u16;
        events.push(ev(t, x, y, on));
        t += step;
    }
    events.push(ev(t, cx * 4, cy * 4, on));
    t
}

#[test]
fn fresh_engine_state() {
    let engine = RpmCalculator::new();
    assert_eq!(engine.sample_idx(), 0);
    assert_eq!(engine.next_sample_time(), SAMPLING_PERIOD);
    assert_eq!(engine.sign_at(0), Sign::Unknown);
    assert_eq!(engine.signed_at(0), SignedTimestamp::Unset);
    assert_eq!(engine.timeline_at(0).anchor_t(), 0);
}

#[test]
fn event_at_boundary_fires_no_tick() {
    let mut engine = RpmCalculator::new();
    let events = vec![ev(SAMPLING_PERIOD, 20, 20, true)];
    let (ticks, _) = run_batch(&mut engine, &events);
    assert!(ticks.is_empty());
    assert_eq!(engine.sample_idx(), 0);
    assert_eq!(engine.next_sample_time(), SAMPLING_PERIOD);
}

#[test]
fn event_past_boundary_fires_ticks() {
    let mut engine = RpmCalculator::new();
    let events = vec![ev(SAMPLING_PERIOD + 1, 20, 20, true)];
    let (ticks, _) = run_batch(&mut engine, &events);
    // The boundary after the very first tick equals the first boundary, so
    // the first crossing fires twice at the same tick time.
    assert_eq!(ticks, vec![SAMPLING_PERIOD, SAMPLING_PERIOD]);
    assert_eq!(engine.sample_idx(), 2);
    assert_eq!(engine.next_sample_time(), 2 * SAMPLING_PERIOD);
}

#[test]
fn catch_up_gap_fires_one_tick_per_period() {
    let mut engine = RpmCalculator::new();
    // Get past the initial boundary first.
    let (_, _) = run_batch(&mut engine, &vec![ev(SAMPLING_PERIOD + 1, 20, 20, true)]);
    assert_eq!(engine.sample_idx(), 2);
    // A gap spanning three sampling periods fires exactly three ticks before
    // the event's own update, one per period.
    let t = 5 * SAMPLING_PERIOD;
    let (ticks, _) = run_batch(&mut engine, &vec![ev(t, 20, 20, false)]);
    assert_eq!(
        ticks,
        vec![2 * SAMPLING_PERIOD, 3 * SAMPLING_PERIOD, 4 * SAMPLING_PERIOD]
    );
    assert_eq!(engine.sample_idx(), 5);
}

#[test]
fn border_cells_are_inert() {
    let mut engine = RpmCalculator::new();
    // Pixel (0, 40) lands in border cell (0, 10): the stamp is stored but no
    // sign and no timeline entry can ever appear there.
    let cell = 0 + 10 * 320;
    let (ticks, flips) = run_batch(&mut engine, &vec![ev(50, 0, 40, true)]);
    assert!(ticks.is_empty());
    assert!(flips.is_empty());
    assert_eq!(engine.signed_at(cell), SignedTimestamp::Positive(50));
    assert_eq!(engine.sign_at(cell), Sign::Unknown);
    assert_eq!(engine.timeline_at(cell).anchor_t(), 0);
}

#[test]
fn unset_neighbor_blocks_consensus() {
    let mut engine = RpmCalculator::new();
    let (cx, cy) = (10u16, 10u16);
    let cell = cx as usize + cy as usize * 320;
    // Touch only seven of the eight neighbors, then the center: one untouched
    // neighbor forces sign Unknown whatever the others hold.
    let mut events = Vec::new();
    let mut t = 10;
    for (dx, dy) in [(-1i32, -1i32), (0, -1), (1, -1), (-1, 0), (1, 0), (-1, 1), (0, 1)] {
        let x = ((cx as i32 + dx) * 4) as u16;
        let y = ((cy as i32 + dy) * 4) as u16;
        events.push(ev(t, x, y, true));
        t += 10;
    }
    events.push(ev(t, cx * 4, cy * 4, true));
    let (_, flips) = run_batch(&mut engine, &events);
    assert!(flips.is_empty());
    assert_eq!(engine.sign_at(cell), Sign::Unknown);
}

#[test]
fn consensus_flip_pushes_into_the_timeline() {
    let mut engine = RpmCalculator::new();
    let (cx, cy) = (10u16, 10u16);
    let cell = cx as usize + cy as usize * 320;
    let mut events = Vec::new();
    let t_on = surround(&mut events, cx, cy, true, 10, 10);
    let t_off = surround(&mut events, cx, cy, false, t_on + 10, 10);
    let (ticks, flips) = run_batch(&mut engine, &events);
    assert!(ticks.is_empty());
    // The all-positive round sets the sign without a flip; the all-negative
    // round confirms a flip at the center's event time.
    assert_eq!(
        flips,
        vec![Flip { cell, t: t_off, prev_anchor: 0 }]
    );
    assert_eq!(engine.sign_at(cell), Sign::Negative);
    assert_eq!(engine.timeline_at(cell).anchor_t(), t_off);
    assert_eq!(engine.timeline_at(cell).slot(0), t_off);
}

#[test]
fn identical_batches_give_identical_results() {
    let mut events = Vec::new();
    let t_on = surround(&mut events, 10, 10, true, 10, 10);
    surround(&mut events, 10, 10, false, t_on + 10, 10);
    events.push(ev(3 * SAMPLING_PERIOD + 7, 20, 20, true));
    let mut first = RpmCalculator::new();
    let mut second = RpmCalculator::new();
    let (ticks1, flips1) = run_batch(&mut first, &events);
    let (ticks2, flips2) = run_batch(&mut second, &events);
    assert_eq!(ticks1, ticks2);
    assert_eq!(flips1, flips2);
    assert_eq!(first.sample_idx(), second.sample_idx());
    assert_eq!(first.next_sample_time(), second.next_sample_time());
    for cell in [3210usize, 20 / 4 + (20 / 4) * 320] {
        assert_eq!(first.sign_at(cell), second.sign_at(cell));
        assert_eq!(first.signed_at(cell), second.signed_at(cell));
        assert_eq!(
            first.timeline_at(cell).anchor_t(),
            second.timeline_at(cell).anchor_t()
        );
    }
}

/// One tick of the driver's floating-point pipeline: project every cell's
/// activity to the tick time, select the most active cells, transform each
/// indicator signal, and accumulate the absolute real parts.
fn tick_spectrum(
    engine: &RpmCalculator,
    activities: &[f64],
    anchors: &[u64],
    t: u64,
) -> Vec<f32> {
    let mu = -1.0 / (ACTIVITY_TAU as f64);
    let keys: Vec<u64> = (0..GRID_CELLS)
        .map(|i| {
            let projected = activities[i] * (((t - anchors[i]) as f64) * mu).exp();
            projected.to_bits()
        })
        .collect();
    let top = select_most_active(&keys);
    let fft = rustfft::FftPlanner::<f32>::new().plan_fft_forward(FFT_SAMPLES);
    let mut sum = vec![0.0f32; FFT_SAMPLES];
    let mut indicator = vec![false; FFT_SAMPLES];
    let mut buffer = vec![rustfft::num_complex::Complex32::default(); FFT_SAMPLES];
    for cell in top {
        engine.fill_indicator(cell, &mut indicator, t);
        for (i, s) in indicator.iter().enumerate() {
            buffer[i] = rustfft::num_complex::Complex32::new(if *s { 1.0 } else { 0.0 }, 0.0);
        }
        fft.process(&mut buffer);
        for (i, sample) in buffer.iter().enumerate() {
            sum[i] += sample.re.abs();
        }
    }
    sum
}

#[test]
fn zero_tick_batches_leave_the_spectrum_alone() {
    let mut engine = RpmCalculator::new();
    let mut activities = vec![0.0f64; GRID_CELLS];
    let mut anchors = vec![0u64; GRID_CELLS];
    // A flip, then an event that crosses the boundary and fires ticks.
    let mut events = Vec::new();
    let t_on = surround(&mut events, 10, 10, true, 10, 10);
    surround(&mut events, 10, 10, false, t_on + 10, 10);
    events.push(ev(SAMPLING_PERIOD + 1, 20, 20, true));
    let mu = -1.0 / (ACTIVITY_TAU as f64);
    let mut pos: usize = 0;
    let mut flips: Vec<Flip> = Vec::new();
    let mut spectrum = vec![0.0f32; FFT_SAMPLES];
    let mut ticks = 0;
    while engine.next_tick(&events, &mut pos, &mut flips).is_some() {
        // The tick evaluates everything at the blocking event's timestamp.
        let t_eval = events[pos].t;
        for flip in flips.drain(..) {
            activities[flip.cell] =
                activities[flip.cell] * (((flip.t - flip.prev_anchor) as f64) * mu).exp() + 1.0;
            anchors[flip.cell] = flip.t;
        }
        spectrum = tick_spectrum(&engine, &activities, &anchors, t_eval);
        engine.advance_tick();
        ticks += 1;
    }
    assert_eq!(ticks, 2);
    assert!(spectrum.iter().any(|v| *v != 0.0));
    let before = spectrum.clone();
    let index_before = engine.sample_idx();
    // A second batch that never crosses the boundary: no tick fires, so the
    // spectrum is never rebuilt and stays numerically identical.
    let quiet = vec![ev(engine.next_sample_time(), 100, 100, false)];
    let (quiet_ticks, _) = run_batch(&mut engine, &quiet);
    assert!(quiet_ticks.is_empty());
    assert_eq!(engine.sample_idx(), index_before);
    assert_eq!(spectrum, before);
}

#[test]
fn single_flip_spectrum_has_unit_dc_bin() {
    let mut engine = RpmCalculator::new();
    let mut events = Vec::new();
    let t_on = surround(&mut events, 10, 10, true, 10, 10);
    let t_off = surround(&mut events, 10, 10, false, t_on + 10, 10);
    events.push(ev(SAMPLING_PERIOD + 1, 300, 300, true));
    let mut pos: usize = 0;
    let mut flips: Vec<Flip> = Vec::new();
    let boundary = engine.next_tick(&events, &mut pos, &mut flips).unwrap();
    assert_eq!(boundary, SAMPLING_PERIOD);
    let t_eval = events[pos].t;
    assert_eq!(t_eval, SAMPLING_PERIOD + 1);
    assert_eq!(flips.len(), 1);
    // Exactly one indicator pulse across all selected cells: the transform of
    // a unit impulse has magnitude one in every bin, so the DC bin of the
    // accumulated spectrum is exactly one.
    let mut activities = vec![0.0f64; GRID_CELLS];
    let mut anchors = vec![0u64; GRID_CELLS];
    activities[flips[0].cell] = 1.0;
    anchors[flips[0].cell] = t_off;
    let spectrum = tick_spectrum(&engine, &activities, &anchors, t_eval);
    assert!((spectrum[0] - 1.0).abs() < 1e-5);
}
