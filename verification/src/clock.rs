//! The system clock, read in the local time zone.
use vstd::prelude::*;

use chrono::{Datelike, Timelike};

use crate::time::{Date, Timestamp, NANOS_PER_SEC, UNIX_EPOCH_DAYS};

verus! {

/// What holds of every reading of the clock: a valid date-time, no leap
/// second in progress, and a day no earlier than the eve of 1970-01-01.
pub open spec fn clock_reading(t: Timestamp) -> bool {
    &&& t.wf()
    &&& t.nanos < NANOS_PER_SEC
    &&& t.date.days >= UNIX_EPOCH_DAYS - 1
}

/// Reads the current local date and time through `chrono::Local::now`,
/// taken as a naive local date-time.
///
/// What is claimed of every reading: it is a valid date-time, it carries no
/// leap second, and it is no earlier than the day before 1970-01-01 (the
/// clock read fails for a system time before the Unix epoch, and a local
/// offset is shorter than a day). Which instant comes back is not stated.
#[verifier::external_body]
pub(crate) fn local_now() -> (r: Timestamp)
    ensures
        clock_reading(r),
{
    let now = chrono::Local::now().naive_local();
    Timestamp {
        date: Date { days: now.date().num_days_from_ce() },
        secs: now.time().num_seconds_from_midnight(),
        nanos: now.time().nanosecond(),
    }
}

} // verus!
