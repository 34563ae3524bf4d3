//! Instants with a local offset, held as plain integers. The calendar work
//! (reading the clock, rendering dates) is done by chrono and trusted.

use vstd::prelude::*;

verus! {

/// An instant on the wall clock together with the local offset in force.
#[derive(Clone, Copy, Debug, PartialEq, Eq, Structural)]
pub struct Timestamp {
    /// Whole seconds since 1970-01-01T00:00:00 UTC, leap seconds not counted.
    pub seconds: i64,
    /// Nanoseconds into the second.
    pub nanos: u32,
    /// What the local clock is ahead of UTC, in seconds.
    pub offset: i32,
}

/// The ISO 8601 text of an instant at its local offset, as chrono's `Debug`
/// rendering of a `DateTime` gives it; nothing if chrono has no such instant
/// or offset.
pub uninterp spec fn local_date_text(seconds: int, nanos: int, offset: int) -> Option<Seq<char>>;

/// The RFC 1123 text of an instant in GMT; nothing if chrono has no such
/// instant.
pub uninterp spec fn http_date_text(seconds: int, nanos: int) -> Option<Seq<char>>;

impl Timestamp {
    /// Whether `self` is an instant no later than `other`. The offsets play
    /// no part.
    pub open spec fn not_after(self, other: Timestamp) -> bool {
        self.seconds < other.seconds || (self.seconds == other.seconds && self.nanos
            <= other.nanos)
    }

    /// Compares two instants.
    pub fn is_not_after(&self, other: &Timestamp) -> (earlier: bool)
        ensures
            earlier == self.not_after(*other),
    {
        self.seconds < other.seconds || (self.seconds == other.seconds && self.nanos
            <= other.nanos)
    }

    /// Reads the clock with `chrono::Local::now` and takes the reading
    /// apart with `timestamp`, `timestamp_subsec_nanos` and
    /// `offset().local_minus_utc`. Nothing is claimed of the reading: it
    /// depends on the machine's clock and time zone. chrono panics if the
    /// clock stands before 1970.
    #[verifier::external_body]
    pub(crate) fn now() -> (reading: Timestamp) {
        let now = chrono::Local::now();
        Timestamp {
            seconds: now.timestamp(),
            nanos: now.timestamp_subsec_nanos(),
            offset: now.offset().local_minus_utc(),
        }
    }

    /// Builds the instant with `chrono::DateTime::from_timestamp`, moves it
    /// to the offset made by `chrono::FixedOffset::east_opt` and renders it
    /// with `Debug`. Trusted: the text depends on the three numbers alone,
    /// and there is none exactly when chrono refuses the instant or the
    /// offset.
    #[verifier::external_body]
    pub(crate) fn local_text(&self) -> (text: Option<String>)
        ensures
            match text {
                Some(text) => local_date_text(
                    self.seconds as int,
                    self.nanos as int,
                    self.offset as int,
                ) == Some(text@),
                None => local_date_text(self.seconds as int, self.nanos as int, self.offset as int)
                    is None,
            },
    {
        let utc = chrono::DateTime::from_timestamp(self.seconds, self.nanos)?;
        let offset = chrono::FixedOffset::east_opt(self.offset)?;
        Some(format!("{:?}", utc.with_timezone(&offset)))
    }

    /// Builds the instant with `chrono::DateTime::from_timestamp` and
    /// renders it with `format("%a, %d %b %Y %H:%M:%S GMT")`. Trusted: the
    /// text depends on the two numbers alone, and there is none exactly when
    /// chrono refuses the instant.
    #[verifier::external_body]
    pub(crate) fn http_text(&self) -> (text: Option<String>)
        ensures
            match text {
                Some(text) => http_date_text(self.seconds as int, self.nanos as int) == Some(
                    text@,
                ),
                None => http_date_text(self.seconds as int, self.nanos as int) is None,
            },
    {
        let utc = chrono::DateTime::from_timestamp(self.seconds, self.nanos)?;
        Some(utc.format("%a, %d %b %Y %H:%M:%S GMT").to_string())
    }
}

} // verus!
