//! Rendering of latencies and target labels.

use multiping::output::{best, u};

#[test]
fn u_value() {
    assert_eq!(u(&Some(1_230_000)), "1.23");
    assert_eq!(u(&None), "U");
}

#[test]
fn u_whole_seconds_and_zero() {
    assert_eq!(u(&Some(0)), "0");
    assert_eq!(u(&Some(2_000_000)), "2");
    assert_eq!(u(&Some(54_100_000)), "54.1");
    assert_eq!(u(&Some(54_000)), "0.054");
    assert_eq!(u(&Some(1)), "0.000001");
}

#[test]
fn best_addr_host() {
    assert_eq!(best("1.2.3.4", "1.2.3.4".into()), "1.2.3.4");
    assert_eq!(
        best("dns.quad9.net", "9.9.9.9".into()),
        "dns.quad9.net/9.9.9.9"
    );
}
