use figet_spinner::timeline::Timeline;
use figet_spinner::{ACTIVITY_TAU, FFT_SAMPLES, TIMELINE_LENGTH, UNSET_TIMESTAMP};

#[test]
fn new_timeline_is_empty() {
    let tl = Timeline::new();
    assert_eq!(tl.cursor(), 0);
    assert_eq!(tl.anchor_t(), 0);
    for k in 0..TIMELINE_LENGTH {
        assert_eq!(tl.slot(k), UNSET_TIMESTAMP);
    }
}

#[test]
fn ring_buffer_keeps_most_recent() {
    // After TIMELINE_LENGTH + 1 pushes the oldest timestamp is evicted and
    // the ring holds exactly the most recent TIMELINE_LENGTH ones.
    let mut tl = Timeline::new();
    for i in 0..(TIMELINE_LENGTH as u64 + 1) {
        tl.push((i + 1) * 10);
    }
    assert_eq!(tl.cursor(), 1);
    // Slot 0 was overwritten by the last push; the first push (10) is gone.
    assert_eq!(tl.slot(0), (TIMELINE_LENGTH as u64 + 1) * 10);
    for k in 1..TIMELINE_LENGTH {
        assert_eq!(tl.slot(k), (k as u64 + 1) * 10);
    }
}

#[test]
fn push_updates_anchor() {
    let mut tl = Timeline::new();
    tl.push(5);
    assert_eq!(tl.anchor_t(), 5);
    tl.push(1000);
    assert_eq!(tl.anchor_t(), 1000);
}

#[test]
fn activity_recurrence_example() {
    // The decaying activity score is maintained by the driver from the
    // anchors the timeline publishes: on push(t) the score becomes
    // score * exp(-(t - previous anchor) / tau) + 1.
    let mut tl = Timeline::new();
    let mut activity: f64 = 0.0;
    let mu = -1.0 / (ACTIVITY_TAU as f64);
    for t in [0u64, 1000, 2000] {
        let prev_anchor = tl.anchor_t();
        tl.push(t);
        activity = activity * (((t - prev_anchor) as f64) * mu).exp() + 1.0;
    }
    let expected_second = 1.0f64 * (-1000.0f64 / 20000.0).exp() + 1.0;
    assert!((expected_second - 1.951229).abs() < 1e-6);
    let expected_third = expected_second * (-0.05f64).exp() + 1.0;
    assert!((activity - expected_third).abs() < 1e-12);
    assert!((activity - 2.856067).abs() < 1e-6);
}

#[test]
fn fill_places_flips_from_the_end() {
    let mut tl = Timeline::new();
    tl.push(500_000);
    let mut samples = vec![true; FFT_SAMPLES];
    tl.fill(&mut samples, 1_000_000);
    // reverse index = round(500000 / 1000) = 500 -> sample 999 - 500.
    for (p, s) in samples.iter().enumerate() {
        assert_eq!(*s, p == 499, "sample {}", p);
    }
}

#[test]
fn fill_rounds_to_nearest_sample() {
    let mut tl = Timeline::new();
    tl.push(999_500);
    tl.push(999_501);
    let mut samples = vec![false; FFT_SAMPLES];
    tl.fill(&mut samples, 1_000_000);
    // 500 microseconds round away from zero to one period; 499 round to zero.
    assert!(samples[999]);
    assert!(samples[998]);
    assert_eq!(samples.iter().filter(|s| **s).count(), 2);
}

#[test]
fn fill_drops_flips_older_than_the_window() {
    let mut tl = Timeline::new();
    tl.push(500);
    let mut samples = vec![false; FFT_SAMPLES];
    // 999500 microseconds back rounds to reverse index 1000: just dropped.
    tl.fill(&mut samples, 1_000_000);
    assert!(samples.iter().all(|s| !*s));
    // One microsecond later it still is; at 999499 back it lands on sample 0.
    let mut tl2 = Timeline::new();
    tl2.push(501);
    tl2.fill(&mut samples, 1_000_000);
    assert!(samples[0]);
    assert_eq!(samples.iter().filter(|s| **s).count(), 1);
}

#[test]
fn fill_of_empty_timeline_is_silent() {
    let tl = Timeline::new();
    let mut samples = vec![true; FFT_SAMPLES];
    tl.fill(&mut samples, 123_456_789);
    assert!(samples.iter().all(|s| !*s));
}
