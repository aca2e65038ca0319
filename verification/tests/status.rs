//! Threshold classification of a single latency.

use multiping::status::Status;

#[test]
fn test_check() {
    assert_eq!(Status::check(100_000, 100_000, 200_000), Status::OK);
    assert_eq!(Status::check(200_000, 100_000, 200_000), Status::Warning);
    assert_eq!(Status::check(210_000, 100_000, 200_000), Status::Critical);
}

#[test]
fn status_text() {
    assert_eq!(Status::OK.text(), "OK");
    assert_eq!(Status::Warning.text(), "WARNING");
    assert_eq!(Status::Critical.text(), "CRITICAL");
    assert_eq!(Status::Unknown.text(), "UNKNOWN");
}

#[test]
fn status_exit_codes_in_declared_order() {
    assert_eq!(Status::OK.exit_code(), 0);
    assert_eq!(Status::Warning.exit_code(), 1);
    assert_eq!(Status::Critical.exit_code(), 2);
    assert_eq!(Status::Unknown.exit_code(), 3);
}
