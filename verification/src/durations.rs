//! Spans of time, read as a number of nanoseconds.

use std::time::Duration;
use vstd::prelude::*;

verus! {

/// How many nanoseconds a `Duration` spans.
pub uninterp spec fn duration_nanos(d: Duration) -> nat;

/// The whole seconds of a span.
pub open spec fn whole_seconds(d: Duration) -> nat {
    duration_nanos(d) / 1_000_000_000
}

/// `Duration::from_secs` spans the given number of seconds.
pub assume_specification[ std::time::Duration::from_secs ](secs: u64) -> (r: Duration)
    ensures
        duration_nanos(r) == secs * 1_000_000_000,
;

/// `Duration::as_secs` is the number of whole seconds.
pub assume_specification[ std::time::Duration::as_secs ](d: &Duration) -> (r: u64)
    ensures
        r == duration_nanos(*d) / 1_000_000_000,
;

/// `Duration::subsec_nanos` is what is left beyond the whole seconds, in
/// nanoseconds.
pub assume_specification[ std::time::Duration::subsec_nanos ](d: &Duration) -> (r: u32)
    ensures
        r == duration_nanos(*d) % 1_000_000_000,
;

/// `Duration::as_millis` is the number of whole milliseconds.
pub assume_specification[ std::time::Duration::as_millis ](d: &Duration) -> (r: u128)
    ensures
        r == duration_nanos(*d) / 1_000_000,
;

} // verus!
