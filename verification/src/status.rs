//! Severity levels and threshold classification.

use vstd::prelude::*;

verus! {

/// Overall severity of a check run, from best to worst.
#[derive(Copy, Clone, PartialEq, Eq, PartialOrd, Ord, Debug, Structural)]
pub enum Status {
    OK,
    Warning,
    Critical,
    Unknown,
}

/// Severity of a best latency `val` against thresholds `warn <= crit`:
/// at or below `warn` is OK, above `crit` is Critical, Warning in between.
pub open spec fn check_spec(val: u64, warn: u64, crit: u64) -> Status {
    if val > crit {
        Status::Critical
    } else if val > warn {
        Status::Warning
    } else {
        Status::OK
    }
}

/// Upper-case rendering of each severity.
pub open spec fn text_spec(s: Status) -> Seq<char> {
    match s {
        Status::OK => "OK"@,
        Status::Warning => "WARNING"@,
        Status::Critical => "CRITICAL"@,
        Status::Unknown => "UNKNOWN"@,
    }
}

/// Process exit code of each severity, in declared order.
pub open spec fn exit_code_spec(s: Status) -> u8 {
    match s {
        Status::OK => 0,
        Status::Warning => 1,
        Status::Critical => 2,
        Status::Unknown => 3,
    }
}

impl Status {
    /// Classifies one latency (microseconds) against the two thresholds.
    pub fn check(val: u64, warn: u64, crit: u64) -> (s: Status)
        requires
            warn <= crit,
        ensures
            s == check_spec(val, warn, crit),
            val <= warn ==> s == Status::OK,
            warn < val <= crit ==> s == Status::Warning,
            val > crit ==> s == Status::Critical,
    {
        if val > crit {
            Status::Critical
        } else if val > warn {
            Status::Warning
        } else {
            Status::OK
        }
    }

    /// Upper-case name of the severity, as shown in check output.
    pub fn text(&self) -> (r: String)
        ensures
            r@ == text_spec(*self),
    {
        match self {
            Status::OK => "OK".to_owned(),
            Status::Warning => "WARNING".to_owned(),
            Status::Critical => "CRITICAL".to_owned(),
            Status::Unknown => "UNKNOWN".to_owned(),
        }
    }

    /// Exit code of the severity: the four levels map to 0 through 3
    /// in their declared order.
    pub fn exit_code(&self) -> (c: u8)
        ensures
            c == exit_code_spec(*self),
    {
        match self {
            Status::OK => 0,
            Status::Warning => 1,
            Status::Critical => 2,
            Status::Unknown => 3,
        }
    }
}

} // verus!
