//! Instants and spans of time.

use vstd::prelude::*;

verus! {

/// The first second that has a date, 1 January of the year -262143.
pub const MIN_SECOND: i64 = -8334601228800;

/// The last second that has a date, 31 December of the year 262142.
pub const MAX_SECOND: i64 = 8210266876799;

/// An instant in UTC: seconds since 1970 and nanoseconds within the second.
#[derive(Clone, Copy, Debug, PartialEq, Eq, Structural)]
pub struct DateTime {
    pub secs: i64,
    pub nanos: u32,
}

/// A span of time.
#[derive(Clone, Copy, Debug, PartialEq, Eq, Structural)]
pub struct Duration {
    pub secs: u64,
    pub nanos: u32,
}

/// Whether a second has a date.
pub open spec fn has_date(secs: int) -> bool {
    MIN_SECOND <= secs <= MAX_SECOND
}

/// The first instant of a second.
pub open spec fn second(secs: i64) -> DateTime {
    DateTime { secs, nanos: 0 }
}

/// The first instant of a second that has a date, another instant otherwise.
pub open spec fn second_or(secs: i64, otherwise: DateTime) -> DateTime {
    if has_date(secs as int) {
        second(secs)
    } else {
        otherwise
    }
}

/// An instant as RFC 3339 writes it.
pub uninterp spec fn rfc3339(secs: i64, nanos: u32) -> Seq<char>;

/// A span of time as `std::time::Duration` writes it for debugging.
pub uninterp spec fn duration_text(secs: u64, nanos: u32) -> Seq<char>;

impl DateTime {
    /// The instant has a date.
    pub open spec fn valid(self) -> bool {
        has_date(self.secs as int) && self.nanos < 1_000_000_000
    }

    /// Nanoseconds since 1970.
    pub open spec fn since_epoch(self) -> int {
        self.secs * 1_000_000_000 + self.nanos
    }

    /// `chrono::DateTime::from_timestamp`: the first instant of a second, where it has a date.
    #[verifier::external_body]
    pub(crate) fn from_timestamp(secs: i64) -> (r: Option<DateTime>)
        ensures
            r == if has_date(secs as int) {
                Some(second(secs))
            } else {
                None
            },
    {
        chrono::DateTime::from_timestamp(secs, 0).map(
            |d| DateTime { secs: d.timestamp(), nanos: d.timestamp_subsec_nanos() },
        )
    }

    /// `chrono::Utc::now`: some instant after the beginning of 1970. Which one, the clock says.
    #[verifier::external_body]
    pub(crate) fn now() -> (r: DateTime)
        ensures
            r.valid(),
            r.secs >= 0,
    {
        let d = chrono::Utc::now();
        DateTime { secs: d.timestamp(), nanos: d.timestamp_subsec_nanos() }
    }

    /// `chrono::DateTime::to_rfc3339` in UTC.
    #[verifier::external_body]
    pub(crate) fn to_rfc3339(&self) -> (r: String)
        requires
            self.valid(),
        ensures
            r@ == rfc3339(self.secs, self.nanos),
    {
        chrono::DateTime::from_timestamp(self.secs, self.nanos).unwrap_or_default().to_rfc3339()
    }

    /// The first instant of a second, the beginning of 1970 where the second has no date.
    pub fn from_timestamp_or_epoch(secs: i64) -> (r: DateTime)
        ensures
            r == second_or(secs, second(0)),
    {
        match DateTime::from_timestamp(secs) {
            Some(d) => d,
            None => DateTime { secs: 0, nanos: 0 },
        }
    }

    /// The first instant of a second, the present where the second has no date.
    pub fn from_timestamp_or_now(secs: i64) -> (r: DateTime)
        ensures
            r.valid(),
            has_date(secs as int) ==> r == second(secs),
            !has_date(secs as int) ==> r.secs >= 0,
    {
        match DateTime::from_timestamp(secs) {
            Some(d) => d,
            None => DateTime::now(),
        }
    }

    /// The time from `earlier` to this instant, none where `earlier` is the later one.
    pub fn elapsed_since(&self, earlier: &DateTime) -> (r: Option<Duration>)
        requires
            self.valid(),
            earlier.valid(),
        ensures
            r is Some <==> earlier.since_epoch() <= self.since_epoch(),
            r matches Some(d) ==> d.valid() && d.length() == self.since_epoch()
                - earlier.since_epoch(),
    {
        if self.secs < earlier.secs || (self.secs == earlier.secs && self.nanos < earlier.nanos) {
            return None;
        }
        let whole: i64 = self.secs - earlier.secs;
        if self.nanos >= earlier.nanos {
            Some(Duration { secs: whole as u64, nanos: self.nanos - earlier.nanos })
        } else {
            Some(
                Duration {
                    secs: (whole - 1) as u64,
                    nanos: (1_000_000_000 - earlier.nanos) + self.nanos,
                },
            )
        }
    }

    /// This instant moved on by some seconds.
    pub fn plus_seconds(&self, secs: u32) -> (r: DateTime)
        requires
            self.valid(),
        ensures
            r == (DateTime { secs: (self.secs + secs) as i64, nanos: self.nanos }),
    {
        DateTime { secs: self.secs + secs as i64, nanos: self.nanos }
    }
}

impl Duration {
    pub open spec fn valid(self) -> bool {
        self.nanos < 1_000_000_000
    }

    /// The span in nanoseconds.
    pub open spec fn length(self) -> int {
        self.secs * 1_000_000_000 + self.nanos
    }

    pub fn from_secs(secs: u64) -> (r: Duration)
        ensures
            r == (Duration { secs, nanos: 0 }),
    {
        Duration { secs, nanos: 0 }
    }

    pub fn as_secs(&self) -> (r: u64)
        ensures
            r == self.secs,
    {
        self.secs
    }

    /// Whether this span is at least as long as `other`.
    pub fn at_least(&self, other: &Duration) -> (r: bool)
        requires
            self.valid(),
            other.valid(),
        ensures
            r == (self.length() >= other.length()),
    {
        self.secs > other.secs || (self.secs == other.secs && self.nanos >= other.nanos)
    }

    /// The `Debug` text of a `std::time::Duration`.
    #[verifier::external_body]
    pub(crate) fn text(&self) -> (r: String)
        requires
            self.valid(),
        ensures
            r@ == duration_text(self.secs, self.nanos),
    {
        format!("{:?}", std::time::Duration::new(self.secs, self.nanos))
    }
}

} // verus!
