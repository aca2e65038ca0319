//! Sampling engine behaviour on recorded outcome sequences.
//!
//! Latencies are whole microseconds.

use multiping::engine::{measure, sample_target, Sampler, MAX_ATTEMPTS};

#[test]
fn test_singletons() {
    let times = vec![vec![Some(54_100_000u64)], vec![Some(200_000u64)]];
    assert_eq!(measure(&times, 100_000_000), vec![Some(54_100_000), Some(200_000)]);
}

#[test]
fn test_collect_minimum() {
    let times = vec![
        // should pick middle one
        vec![Some(54_100_000u64), Some(53_000_000), Some(53_500_000)],
        // should pick last one
        vec![None, Some(300_000), Some(200_000)],
        // should pick first one
        vec![Some(1_000_000), Some(2_500_000), Some(3_000_000)],
        // should pick nothing
        vec![None, None, None],
    ];
    assert_eq!(
        measure(&times, 10_000),
        vec![Some(53_000_000), Some(200_000), Some(1_000_000), None]
    );
}

#[test]
fn test_max_attempts() {
    let mut rtt = vec![Some(4_000_000u64); MAX_ATTEMPTS as usize];
    rtt.push(Some(2_000_000));
    let times = vec![rtt];
    assert_eq!(measure(&times, 100_000_000), vec![Some(4_000_000)]);
}

#[test]
fn test_stop_single_target_below_cutoff() {
    // should pick 3rd one (first below cutoff)
    let times = vec![vec![
        Some(9_000_000u64),
        Some(8_000_000),
        Some(7_000_000),
        Some(6_000_000),
    ]];
    assert_eq!(measure(&times, 8_000_000), vec![Some(7_000_000)]);
}

#[test]
fn test_multi_cutoff() {
    let times = vec![
        vec![Some(7_000_000u64), Some(6_000_000), Some(5_000_000), Some(4_000_000)],
        vec![Some(8_000_000), Some(7_000_000), Some(6_000_000), Some(5_000_000)],
        // not cutoff
        vec![Some(9_000_000), Some(8_000_000), Some(7_000_000), Some(6_000_000)],
    ];
    assert_eq!(
        measure(&times, 5_100_000),
        vec![Some(5_000_000), Some(5_000_000), Some(6_000_000)]
    );
}

#[test]
fn single_target_stream_exhausted() {
    // One target, one outcome, cutoff never reached, cap not hit.
    let outcomes = vec![Some(54_100_000u64)];
    assert_eq!(sample_target(&outcomes, 100_000_000), Some(54_100_000));
}

#[test]
fn measure_no_targets() {
    let times: Vec<Vec<Option<u64>>> = Vec::new();
    assert_eq!(measure(&times, 1_000), Vec::<Option<u64>>::new());
}

#[test]
fn sampler_counts_every_attempt() {
    let mut s = Sampler::new(1_000);
    assert!(s.wants_more());
    s.update(None);
    s.update(Some(5_000));
    s.update(None);
    s.update(Some(4_000));
    s.update(Some(6_000));
    assert_eq!(s.attempts, MAX_ATTEMPTS);
    assert!(!s.wants_more());
    assert_eq!(s.best, Some(4_000));
}

#[test]
fn sampler_stops_below_cutoff_only() {
    let s = Sampler::new(5_000);
    assert!(s.should_continue(None));
    assert!(s.should_continue(Some(5_000)));
    assert!(!s.should_continue(Some(4_999)));
}

#[test]
fn no_reply_never_updates_best() {
    let outcomes = vec![None, Some(300_000u64), None];
    assert_eq!(sample_target(&outcomes, 10_000), Some(300_000));
    let all_none: Vec<Option<u64>> = vec![None, None, None, None, None, None];
    assert_eq!(sample_target(&all_none, 10_000), None);
}
