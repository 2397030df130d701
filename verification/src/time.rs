//! Calendar values used by the journal: dates, naive date-times and spans.
//!
//! The representation follows the one the journal's timestamps have on disk
//! (a proleptic Gregorian date without time zone plus a time of day), so that
//! ordering and differences can be stated over plain integers.
use vstd::prelude::*;

verus! {

/// Smallest day number (days from the Common Era, 0001-01-01 being day 1)
/// that a journal date can take.
pub const MIN_DAYS: i32 = -95746129;

/// Largest day number that a journal date can take.
pub const MAX_DAYS: i32 = 95745399;

/// Day number of 1970-01-01.
pub const UNIX_EPOCH_DAYS: i32 = 719163;

pub const NANOS_PER_SEC: u32 = 1_000_000_000;

pub const SECS_PER_DAY: u32 = 86_400;

/// Largest magnitude, in whole seconds, of a [`Span`].
pub const MAX_SPAN_SECS: i64 = 9_223_372_036_854_775;

/// A calendar date, stored as its day number counted from the Common Era
/// (0001-01-01 is day 1).
#[derive(Clone, Copy, Debug, PartialEq, Eq, Structural)]
pub struct Date {
    pub days: i32,
}

/// A date and a time of day without time zone.
///
/// `secs` counts the seconds since midnight; `nanos` is the sub-second part
/// and reaches past one second only while a leap second is in progress,
/// which can only follow second 59 of a minute.
#[derive(Clone, Copy, Debug, PartialEq, Eq, Structural)]
pub struct Timestamp {
    pub date: Date,
    pub secs: u32,
    pub nanos: u32,
}

/// A signed length of time: whole seconds plus a non-negative sub-second part.
#[derive(Clone, Copy, Debug, PartialEq, Eq, Structural)]
pub struct Span {
    pub secs: i64,
    pub nanos: u32,
}

impl Date {
    /// The date lies in the range that the journal supports.
    pub open spec fn wf(self) -> bool {
        MIN_DAYS <= self.days <= MAX_DAYS
    }

    /// Day of the week counted from Monday (0) to Sunday (6).
    pub open spec fn weekday_from_monday(self) -> int {
        (self.days - 1) % 7
    }

    /// Day of the week counted from Sunday (0) to Saturday (6).
    pub open spec fn weekday_from_sunday(self) -> int {
        (self.days as int) % 7
    }

    /// Whether `self` lies in the optional inclusive range `[start, end]`;
    /// an absent bound does not restrict.
    pub open spec fn in_range(self, start: Option<Date>, end: Option<Date>) -> bool {
        (match start {
            Some(s) => s.days <= self.days,
            None => true,
        }) && (match end {
            Some(e) => self.days <= e.days,
            None => true,
        })
    }

    /// Builds a date from its day number.
    pub fn from_days(days: i32) -> (r: Date)
        ensures
            r.days == days,
    {
        Date { days }
    }

    /// Whether `self` lies in the inclusive range `[start, end]`.
    pub fn is_in_range(&self, start: Option<Date>, end: Option<Date>) -> (r: bool)
        ensures
            r == self.in_range(start, end),
    {
        let after_start = match start {
            Some(s) => s.days <= self.days,
            None => true,
        };
        let before_end = match end {
            Some(e) => self.days <= e.days,
            None => true,
        };
        after_start && before_end
    }

    /// The date `n` days later (earlier when `n` is negative).
    pub fn add_days(&self, n: i32) -> (r: Date)
        requires
            MIN_DAYS <= self.days + n <= MAX_DAYS,
        ensures
            r.days == self.days + n,
            r.wf(),
    {
        Date { days: self.days + n }
    }

    /// Day of the week counted from Monday (0).
    pub fn num_days_from_monday(&self) -> (r: u32)
        requires
            self.wf(),
        ensures
            r == self.weekday_from_monday(),
            r < 7,
    {
        let d: i64 = self.days as i64 - 1 + 98_000_000;
        let r: i64 = d % 7;
        proof {
            vstd::arithmetic::div_mod::lemma_mod_multiples_vanish(14_000_000, self.days - 1, 7);
        }
        r as u32
    }

    /// Day of the week counted from Sunday (0).
    pub fn num_days_from_sunday(&self) -> (r: u32)
        requires
            self.wf(),
        ensures
            r == self.weekday_from_sunday(),
            r < 7,
    {
        let d: i64 = self.days as i64 + 98_000_000;
        let r: i64 = d % 7;
        proof {
            vstd::arithmetic::div_mod::lemma_mod_multiples_vanish(14_000_000, self.days as int, 7);
        }
        r as u32
    }

    /// The first instant of the day (`00:00:00`).
    pub fn start_of_day(&self) -> (r: Timestamp)
        ensures
            r == (Timestamp { date: *self, secs: 0, nanos: 0 }),
    {
        Timestamp { date: *self, secs: 0, nanos: 0 }
    }

    /// The last whole second of the day (`23:59:59`).
    pub fn end_of_day(&self) -> (r: Timestamp)
        ensures
            r == (Timestamp { date: *self, secs: 86399, nanos: 0 }),
    {
        Timestamp { date: *self, secs: 86399, nanos: 0 }
    }
}

impl Span {
    /// The span in nanoseconds.
    pub open spec fn total_nanos(self) -> int {
        self.secs * 1_000_000_000 + self.nanos
    }

    pub open spec fn wf(self) -> bool {
        &&& self.nanos < NANOS_PER_SEC
        &&& -MAX_SPAN_SECS <= self.secs <= MAX_SPAN_SECS
    }

    /// A span of `n` whole days.
    pub fn days(n: i64) -> (r: Span)
        requires
            -MAX_SPAN_SECS <= n * 86400 <= MAX_SPAN_SECS,
        ensures
            r.secs == n * 86400,
            r.nanos == 0,
            r.wf(),
    {
        Span { secs: n * 86400, nanos: 0 }
    }

    /// A span of `n` whole hours.
    pub fn hours(n: i64) -> (r: Span)
        requires
            -MAX_SPAN_SECS <= n * 3600 <= MAX_SPAN_SECS,
        ensures
            r.secs == n * 3600,
            r.nanos == 0,
            r.wf(),
    {
        Span { secs: n * 3600, nanos: 0 }
    }
}

impl Timestamp {
    /// A valid time of day: a leap second can only follow second 59 of a minute.
    pub open spec fn wf(self) -> bool {
        &&& self.date.wf()
        &&& self.secs < SECS_PER_DAY
        &&& self.nanos < 2 * NANOS_PER_SEC
        &&& self.nanos >= NANOS_PER_SEC ==> self.secs % 60 == 59
    }

    /// Strict chronological order: by date, then second of the day, then
    /// sub-second part.
    pub open spec fn precedes(self, other: Timestamp) -> bool {
        ||| self.date.days < other.date.days
        ||| (self.date.days == other.date.days && self.secs < other.secs)
        ||| (self.date.days == other.date.days && self.secs == other.secs && self.nanos < other.nanos)
    }

    /// Nanoseconds between the times of day of `self` and `earlier`,
    /// counting a leap second in progress as one more second.
    pub open spec fn time_nanos_since(self, earlier: Timestamp) -> int {
        let secs: int = self.secs - earlier.secs;
        let adjusted: int = if self.secs > earlier.secs && earlier.nanos >= NANOS_PER_SEC {
            secs + 1
        } else if self.secs < earlier.secs && self.nanos >= NANOS_PER_SEC {
            secs - 1
        } else {
            secs
        };
        adjusted * 1_000_000_000 + (self.nanos - earlier.nanos)
    }

    /// Nanoseconds elapsed from `earlier` to `self` (negative when `self`
    /// comes first).
    pub open spec fn nanos_since(self, earlier: Timestamp) -> int {
        (self.date.days - earlier.date.days) * 86_400_000_000_000 + self.time_nanos_since(earlier)
    }

    /// Whether `self` comes strictly before `other`.
    pub fn is_before(&self, other: &Timestamp) -> (r: bool)
        ensures
            r == self.precedes(*other),
    {
        if self.date.days != other.date.days {
            self.date.days < other.date.days
        } else if self.secs != other.secs {
            self.secs < other.secs
        } else {
            self.nanos < other.nanos
        }
    }

    /// Whether at least `span` has elapsed from `earlier` to `self`.
    pub fn elapsed_at_least(&self, earlier: &Timestamp, span: &Span) -> (r: bool)
        ensures
            r == (self.nanos_since(*earlier) >= span.total_nanos()),
    {
        let days: i128 = self.date.days as i128 - earlier.date.days as i128;
        let raw: i128 = self.secs as i128 - earlier.secs as i128;
        let secs: i128 = if self.secs > earlier.secs && earlier.nanos >= NANOS_PER_SEC {
            raw + 1
        } else if self.secs < earlier.secs && self.nanos >= NANOS_PER_SEC {
            raw - 1
        } else {
            raw
        };
        let frac: i128 = self.nanos as i128 - earlier.nanos as i128;
        assert(-5_000_000_000i128 <= days <= 5_000_000_000i128);
        assert(-1_000_000_000_000_000_000_000_000i128 <= days * 86_400_000_000_000i128 <= 1_000_000_000_000_000_000_000_000i128) by (nonlinear_arith)
            requires -5_000_000_000i128 <= days <= 5_000_000_000i128;
        assert(-5_000_000_000_000_000_000i128 <= secs * 1_000_000_000i128 <= 5_000_000_000_000_000_000i128) by (nonlinear_arith)
            requires -5_000_000_000i128 <= secs <= 5_000_000_000i128;
        let elapsed: i128 = days * 86_400_000_000_000i128 + secs * 1_000_000_000i128 + frac;
        assert(-10_000_000_000_000_000_000_000_000_000i128 <= span.secs as i128 * 1_000_000_000i128 <= 10_000_000_000_000_000_000_000_000_000i128) by (nonlinear_arith)
            requires -10_000_000_000_000_000_000i128 <= span.secs <= 10_000_000_000_000_000_000i128;
        let needed: i128 = span.secs as i128 * 1_000_000_000i128 + span.nanos as i128;
        elapsed >= needed
    }
}

} // verus!
