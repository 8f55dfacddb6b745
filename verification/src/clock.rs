//! Points in time, and their textual forms.

use std::fmt::Write;
use vstd::prelude::*;

verus! {

/// A point in time: whole seconds since 1970-01-01T00:00:00Z, and the
/// nanoseconds since the last whole second.
#[derive(Clone, Copy, Debug, PartialEq, Eq, Structural)]
pub struct Timestamp {
    pub secs: i64,
    pub nanos: u32,
}

/// The RFC 3339 text of the time `secs`, `nanos`, or `None` where the calendar
/// in use cannot hold that time.
pub uninterp spec fn rfc3339_text(secs: int, nanos: int) -> Option<Seq<char>>;

/// The time `secs`, `nanos` written after the strftime-like pattern `format`,
/// or `None` where the calendar cannot hold the time or the pattern is not
/// well formed.
pub uninterp spec fn formatted_time(secs: int, nanos: int, format: Seq<char>) -> Option<Seq<char>>;

/// The time that `text` denotes when read as an RFC 3339 date and time, as
/// seconds and nanoseconds, or `None` where it denotes none.
pub uninterp spec fn parsed_time(text: Seq<char>) -> Option<(int, int)>;

/// The time `secs`, `nanos` as a date, a time of day and `UTC`, or `None`
/// where the calendar in use cannot hold that time.
pub uninterp spec fn display_text(secs: int, nanos: int) -> Option<Seq<char>>;

impl Timestamp {
    /// `chrono::Utc::now`: the time of the system clock. Nothing is known of
    /// the result. (chrono panics where the clock reads earlier than 1970.)
    #[verifier::external_body]
    pub(crate) fn now() -> (t: Timestamp) {
        let now = chrono::Utc::now();
        Timestamp { secs: now.timestamp(), nanos: now.timestamp_subsec_nanos() }
    }

    /// `chrono::DateTime::to_rfc3339`, on the time that
    /// `chrono::DateTime::from_timestamp` makes of the two numbers: the text
    /// depends on them alone.
    #[verifier::external_body]
    pub(crate) fn to_rfc3339(&self) -> (out: Option<String>)
        ensures
            match out {
                Some(text) => rfc3339_text(self.secs as int, self.nanos as int) == Some(text@),
                None => rfc3339_text(self.secs as int, self.nanos as int) is None,
            },
    {
        match chrono::DateTime::from_timestamp(self.secs, self.nanos) {
            Some(time) => Some(time.to_rfc3339()),
            None => None,
        }
    }

    /// `ToString::to_string` of `chrono::DateTime<Utc>`, on the time that
    /// `chrono::DateTime::from_timestamp` makes of the two numbers: the text
    /// depends on them alone.
    #[verifier::external_body]
    pub(crate) fn display(&self) -> (out: Option<String>)
        ensures
            match out {
                Some(text) => display_text(self.secs as int, self.nanos as int) == Some(text@),
                None => display_text(self.secs as int, self.nanos as int) is None,
            },
    {
        match chrono::DateTime::from_timestamp(self.secs, self.nanos) {
            Some(time) => Some(time.to_string()),
            None => None,
        }
    }

    /// `chrono::DateTime::format`, on the time that
    /// `chrono::DateTime::from_timestamp` makes of the two numbers, written
    /// out with `write!` so that a pattern that is not well formed gives
    /// `None`: the text depends on the numbers and the pattern alone.
    #[verifier::external_body]
    pub(crate) fn format(&self, format: &str) -> (out: Option<String>)
        ensures
            match out {
                Some(text) => formatted_time(self.secs as int, self.nanos as int, format@) == Some(
                    text@,
                ),
                None => formatted_time(self.secs as int, self.nanos as int, format@) is None,
            },
    {
        let mut out = String::new();
        match chrono::DateTime::from_timestamp(self.secs, self.nanos) {
            Some(time) => match write!(out, "{}", time.format(format)) {
                Ok(()) => Some(out),
                Err(_) => None,
            },
            None => None,
        }
    }

    /// `str::parse::<chrono::DateTime<chrono::Utc>>`: the time that the text
    /// denotes, read as RFC 3339, depends on the text alone.
    #[verifier::external_body]
    pub(crate) fn parse(text: &str) -> (out: Option<Timestamp>)
        ensures
            match out {
                Some(t) => parsed_time(text@) == Some((t.secs as int, t.nanos as int)),
                None => parsed_time(text@) is None,
            },
    {
        match text.parse::<chrono::DateTime<chrono::Utc>>() {
            Ok(time) => Some(
                Timestamp { secs: time.timestamp(), nanos: time.timestamp_subsec_nanos() },
            ),
            Err(_) => None,
        }
    }
}

} // verus!
