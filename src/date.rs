//! Instants in UTC, held as seconds and nanoseconds since the Unix epoch.

use chrono::{DateTime, NaiveDateTime};
use vstd::prelude::*;

verus! {

/// The largest number of seconds, either side of the epoch, that a
/// `Timestamp` holds (about 139,000 years).
pub const MAX_SECS: i64 = 4_398_046_511_104;

/// An instant in UTC.
#[derive(Clone, Copy, Debug, PartialEq, Eq, Structural)]
pub struct Timestamp {
    pub secs: i64,
    pub nanos: u32,
}

/// What chrono's `NaiveDateTime::parse_from_str` reads from a text in a
/// format, as seconds and nanoseconds since the epoch in UTC.
pub uninterp spec fn parsed_utc(text: Seq<char>, format: Seq<char>) -> Option<(int, int)>;

/// The RFC 3339 text that chrono writes for an instant.
pub uninterp spec fn rfc3339_of(secs: int, nanos: int) -> Seq<char>;

/// Relies on chrono's `NaiveDateTime::parse_from_str`, read as UTC, and on
/// `timestamp` and `timestamp_subsec_nanos` of the result.
#[verifier::external_body]
fn parse_naive_utc(text: &str, format: &str) -> (r: Option<(i64, u32)>)
    ensures
        r matches Some(p) ==> parsed_utc(text@, format@) == Some((p.0 as int, p.1 as int)),
        r is None ==> parsed_utc(text@, format@) is None,
{
    NaiveDateTime::parse_from_str(text, format).ok().map(|d| (d.and_utc().timestamp(), d.and_utc().timestamp_subsec_nanos()))
}

/// Relies on chrono's `DateTime::from_timestamp`, which gives an instant for
/// every second in the range of `Timestamp` and every nanosecond under one
/// billion, and on its `to_rfc3339`.
#[verifier::external_body]
fn rfc3339_text(t: &Timestamp) -> (r: String)
    requires
        t.wf(),
    ensures
        r@ == rfc3339_of(t.secs as int, t.nanos as int),
{
    DateTime::from_timestamp(t.secs, t.nanos).unwrap().to_rfc3339()
}

/// The instant that a parse gave, when it lies in the range of `Timestamp`.
pub open spec fn timestamp_in_range(p: Option<(int, int)>) -> Option<Timestamp> {
    match p {
        Some((s, n)) => if -MAX_SECS <= s <= MAX_SECS && 0 <= n < 1_000_000_000 {
            Some(Timestamp { secs: s as i64, nanos: n as u32 })
        } else {
            None
        },
        None => None,
    }
}

impl Timestamp {
    /// In range, with fewer than a billion nanoseconds.
    pub open spec fn wf(&self) -> bool {
        -MAX_SECS <= self.secs <= MAX_SECS && self.nanos < 1_000_000_000
    }

    /// Not later than `other`.
    pub open spec fn le(&self, other: Timestamp) -> bool {
        self.secs < other.secs || (self.secs == other.secs && self.nanos <= other.nanos)
    }

    /// Whether the instant is in range.
    pub fn is_valid(&self) -> (r: bool)
        ensures
            r == self.wf(),
    {
        -MAX_SECS <= self.secs && self.secs <= MAX_SECS && self.nanos < 1_000_000_000
    }

    /// Whether this instant is not later than `other`.
    pub fn not_after(&self, other: &Timestamp) -> (r: bool)
        ensures
            r == self.le(*other),
    {
        self.secs < other.secs || (self.secs == other.secs && self.nanos <= other.nanos)
    }

    /// Reads an instant in UTC from `text` laid out as `format` (chrono's
    /// `strftime` syntax); `None` when it does not parse or lies out of range.
    pub fn parse(text: &str, format: &str) -> (r: Option<Timestamp>)
        ensures
            r == timestamp_in_range(parsed_utc(text@, format@)),
            r matches Some(t) ==> t.wf(),
    {
        match parse_naive_utc(text, format) {
            Some((s, n)) => {
                if -MAX_SECS <= s && s <= MAX_SECS && n < 1_000_000_000 {
                    Some(Timestamp { secs: s, nanos: n })
                } else {
                    None
                }
            },
            None => None,
        }
    }

    /// The instant as RFC 3339 text, such as `2020-01-01T00:00:00+00:00`.
    pub fn to_rfc3339(&self) -> (r: String)
        requires
            self.wf(),
        ensures
            r@ == rfc3339_of(self.secs as int, self.nanos as int),
    {
        rfc3339_text(self)
    }
}

} // verus!
