//! Report building: minimum selection, perfdata, and evaluation.

use multiping::report::{PingTimes, Targets};
use multiping::status::Status;

/// Builds a PingTimes whose targets are address literals.
fn pt(data: &[(&str, Option<u64>)]) -> PingTimes {
    let mut t = Targets::new();
    for &(tgt, _) in data {
        t.add_target(tgt, tgt.to_string());
    }
    let times: Vec<Option<u64>> = data.iter().map(|d| d.1).collect();
    PingTimes::new(t, times)
}

#[test]
fn eval_no_data() {
    assert_eq!(
        pt(&[]).evaluate(0, 0),
        ("no targets found".into(), Status::Unknown)
    );
}

#[test]
fn eval_all_timeout() {
    assert_eq!(
        pt(&[("8.8.8.8", None), ("4.4.4.4", None)]).evaluate(300_000, 400_000),
        (
            "no data | '8.8.8.8'=Us;0.3;0.4;0 '4.4.4.4'=Us;0.3;0.4;0".into(),
            Status::Critical
        )
    );
}

#[test]
fn eval_ok() {
    assert_eq!(
        pt(&[("8.8.8.8", Some(10_000)), ("4.4.4.4", None)]).evaluate(100_000, 200_000),
        (
            "best rtt 10 ms (for 8.8.8.8) | '8.8.8.8'=0.01s;0.1;0.2;0 '4.4.4.4'=Us;0.1;0.2;0"
                .into(),
            Status::OK
        )
    );
}

#[test]
fn eval_ok_fmt_hostnames() {
    let mut t = Targets::new();
    t.add_target("google.ns", "8.8.8.8".to_string());
    let p = PingTimes::new(t, vec![Some(54_000)]);
    assert_eq!(
        p.evaluate(100_000, 200_000),
        (
            "best rtt 54 ms (for google.ns/8.8.8.8) | '8.8.8.8'=0.054s;0.1;0.2;0".into(),
            Status::OK
        )
    );
}

#[test]
fn eval_warning() {
    assert_eq!(
        pt(&[("8.8.8.8", Some(1_000_000))]).evaluate(100_000, 1_000_000).1,
        Status::Warning
    );
}

#[test]
fn eval_critical() {
    assert_eq!(
        pt(&[("8.8.8.8", Some(1_100_000))]).evaluate(100_000, 1_000_000).1,
        Status::Critical
    );
}

#[test]
fn eval_appends_resolution_warnings() {
    let mut t = Targets::new();
    t.add_warning("no.such.host", "not found");
    let p = PingTimes::new(t, Vec::new());
    assert_eq!(
        p.evaluate(100_000, 200_000),
        (
            "no targets found\nwarning: no.such.host: not found".into(),
            Status::Unknown
        )
    );
}

#[test]
fn min_rtt_empty() {
    assert!(pt(&[]).min_rtt().is_none())
}

#[test]
fn min_rtt_regular() {
    assert_eq!(
        pt(&[
            ("1.1.1.1", Some(300_000)),
            ("2.2.2.2", Some(200_000)),
            ("3.3.3.3", Some(100_000)),
        ])
        .min_rtt(),
        Some((100_000, "3.3.3.3".to_string(), "3.3.3.3".to_string()))
    )
}

#[test]
fn min_rtt_filter_out_none() {
    assert_eq!(
        pt(&[("1.1.1.1", None), ("2.2.2.2", Some(200_000))]).min_rtt(),
        Some((200_000, "2.2.2.2".to_string(), "2.2.2.2".to_string()))
    )
}

#[test]
fn min_rtt_ties_go_to_the_first() {
    assert_eq!(
        pt(&[("1.1.1.1", Some(200_000)), ("2.2.2.2", Some(200_000))]).min_rtt(),
        Some((200_000, "1.1.1.1".to_string(), "1.1.1.1".to_string()))
    )
}

#[test]
fn classify_same_results_twice() {
    // Classifying the same result set with the same thresholds twice
    // yields the same severity.
    let data: [(&str, Option<u64>); 2] = [("8.8.8.8", Some(150_000)), ("4.4.4.4", None)];
    let first = pt(&data).evaluate(100_000, 200_000);
    let second = pt(&data).evaluate(100_000, 200_000);
    assert_eq!(first.1, second.1);
    assert_eq!(first.1, Status::Warning);
}

#[test]
fn eval_boundary_values() {
    // Minimum exactly at the warning threshold stays OK, exactly at the
    // critical threshold is Warning.
    assert_eq!(
        pt(&[("8.8.8.8", Some(100_000))]).evaluate(100_000, 200_000).1,
        Status::OK
    );
    assert_eq!(
        pt(&[("8.8.8.8", Some(200_000))]).evaluate(100_000, 200_000).1,
        Status::Warning
    );
}

#[test]
fn perfdata_lists_every_target() {
    let p = pt(&[("1.1.1.1", Some(500)), ("2.2.2.2", None)]);
    assert_eq!(
        p.perfdata(1_500_000, 2_000_000),
        " '1.1.1.1'=0.0005s;1.5;2;0 '2.2.2.2'=Us;1.5;2;0"
    );
}
