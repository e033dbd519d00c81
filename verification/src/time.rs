//! The system clock. Nothing in this file is proved.

use vstd::prelude::*;

use std::time::{Duration, SystemTime, UNIX_EPOCH};

verus! {

#[verifier::external_type_specification]
#[verifier::external_body]
pub struct ExSystemTime(SystemTime);

/// `SystemTime::now`: the time that the system clock shows. Nothing is
/// stated of it.
#[verifier::external_body]
pub(crate) fn system_time_now() -> (t: SystemTime) {
    SystemTime::now()
}

/// The time from the Unix epoch to `t`, or nothing where `t` lies before
/// the epoch.
pub uninterp spec fn spec_since_epoch(t: SystemTime) -> Option<Duration>;

/// `SystemTime::duration_since` with the Unix epoch: the time from the
/// epoch to `t`, or nothing where `t` lies before the epoch. It is a
/// function of `t` alone.
#[verifier::external_body]
pub(crate) fn duration_since_epoch(t: &SystemTime) -> (d: Option<Duration>)
    ensures
        d == spec_since_epoch(*t),
{
    t.duration_since(UNIX_EPOCH).ok()
}

/// The whole seconds of a duration.
pub uninterp spec fn spec_duration_secs(d: Duration) -> u64;

/// The part of a duration below one second, in nanoseconds.
pub uninterp spec fn spec_duration_nanos(d: Duration) -> u32;

/// The whole seconds of a duration.
pub assume_specification[ Duration::as_secs ](d: &Duration) -> (secs: u64)
    ensures
        secs == spec_duration_secs(*d),
;

/// The part of a duration below one second, in nanoseconds, which is less
/// than a second.
pub assume_specification[ Duration::subsec_nanos ](d: &Duration) -> (nanos: u32)
    ensures
        nanos == spec_duration_nanos(*d),
        nanos < 1_000_000_000,
;

} // verus!
