use roxy_can::observe::{SampleCache, SigKey, Subscription, HISTORY_SPAN_US, SAMPLE_INTERVAL_US};

/// The widest time window of a plot, in seconds.
const MAX_TIME_WINDOW_S: f64 = 3600.0;

fn blank_sub() -> Subscription<f64> {
    let key = SigKey { ch: 0, id: 0x100, ext: false, signal: "S".to_string() };
    Subscription::new(key, 0.0, String::new(), 0)
}

#[test]
fn the_head_of_the_curve_survives_past_the_old_point_cap() {
    let mut sub = blank_sub();
    for i in 0..5_000u64 {
        sub.push_sample(i * SAMPLE_INTERVAL_US, (i % 97) as f64, SAMPLE_INTERVAL_US);
    }
    assert_eq!(sub.history.len(), 5_000, "250 s fits inside the span");
    assert_eq!(sub.history.first().unwrap().0, 0, "the head must still be there mid-run");
}

#[test]
fn eviction_begins_only_past_the_retention_span() {
    let mut sub = blank_sub();
    let n = HISTORY_SPAN_US / SAMPLE_INTERVAL_US + 10;
    for i in 0..n {
        sub.push_sample(i * SAMPLE_INTERVAL_US, 1.0, SAMPLE_INTERVAL_US);
    }
    assert!(sub.history.len() < n as usize, "stale head is dropped");
    let kept = sub.history.len() as u64 * SAMPLE_INTERVAL_US;
    assert!(
        kept <= HISTORY_SPAN_US + SAMPLE_INTERVAL_US,
        "retained span {} us exceeds the cap",
        kept
    );
    assert!(
        sub.n > sub.history.len() as u64,
        "min/max/avg stay cumulative over the whole run"
    );
}

#[test]
fn retention_backs_the_widest_plot_window() {
    assert!(
        HISTORY_SPAN_US as f64 / 1e6 >= MAX_TIME_WINDOW_S,
        "the widest window is {} s but history only holds {} s",
        MAX_TIME_WINDOW_S,
        HISTORY_SPAN_US as f64 / 1e6,
    );
}

#[test]
fn sample_cache_stays_ascending_when_filled_from_either_end() {
    let mut c: SampleCache<f64> = SampleCache::new();
    c.merge(&(100..110u64).map(|i| (i * 1_000, i as f64)).collect::<Vec<_>>(), 1_000);
    c.merge(&(0..10u64).map(|i| (i * 1_000, i as f64)).collect::<Vec<_>>(), 1_000);
    assert_eq!(c.len(), 20);
    let all = c.as_slice();
    assert!(
        all.iter().zip(all.iter().skip(1)).all(|(a, b)| a.0 <= b.0),
        "merge behind existing points must keep the buffer sorted"
    );
    assert_eq!(c.first().unwrap().0, 0);
}

#[test]
fn sample_cache_range_and_lookup_are_inclusive_and_ordered() {
    let mut c: SampleCache<f64> = SampleCache::new();
    c.merge(&(0..10u64).map(|i| (i * 1_000, i as f64)).collect::<Vec<_>>(), 1_000);
    let win = c.range(2_000, 5_000);
    assert_eq!(
        win.iter().map(|(t, _)| *t).collect::<Vec<_>>(),
        vec![2_000, 3_000, 4_000, 5_000],
        "both ends of the window are included"
    );
    assert_eq!(c.at(4_500), Some(4.0), "last value at or before");
    assert_eq!(c.at(0), Some(0.0), "the first sample resolves on its own edge");
    assert_eq!(c.at(999), Some(0.0), "step-signal semantics hold");
    let empty: SampleCache<f64> = SampleCache::new();
    assert_eq!(empty.at(999), None, "an empty cache has no value to report");
}

#[test]
fn sample_cache_trims_by_span_not_by_count() {
    let mut c: SampleCache<f64> = SampleCache::new();
    c.merge(&(0..30u64).map(|i| (i * 10_000, 1.0)).collect::<Vec<_>>(), 10_000);
    c.trim_oldest(100_000);
    assert_eq!(
        c.first().unwrap().0,
        190_000,
        "newest is 290 s, so everything from 190 s on survives"
    );
    assert_eq!(c.len(), 11);
}

#[test]
fn samples_nearer_than_the_stride_are_not_stored_twice() {
    let mut c: SampleCache<f64> = SampleCache::new();
    assert!(c.place(1_000, 1.0, 500));
    assert!(!c.place(1_200, 2.0, 500));
    assert!(!c.place(900, 2.0, 500));
    assert!(c.place(1_500, 3.0, 500));
    assert_eq!(c.as_slice(), &[(1_000, 1.0), (1_500, 3.0)]);
    c.clear();
    assert!(c.is_empty());
}

#[test]
fn a_fresh_run_forgets_the_samples_and_keeps_the_color() {
    let mut sub = blank_sub();
    sub.color = 3;
    sub.push_sample(5, 1.0, 1);
    assert_eq!(sub.n, 1);
    sub.reset_measurement();
    assert_eq!(sub.n, 0);
    assert!(sub.history.is_empty());
    assert_eq!(sub.color, 3);
    assert!(sub.is_sample_due(0, 50), "the first sample is always due");
    sub.push_sample(10, 1.0, 1);
    sub.resume_sampling_at(77);
    assert_eq!(sub.last_sample_us, 77);
    assert!(!sub.is_sample_due(78, 50));
    assert!(sub.is_sample_due(127, 50));
}
