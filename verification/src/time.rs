//! Instants with the UTC offset they were written in.
//!
//! A timestamp compares by the instant it denotes; the offset and the RFC 3339
//! rendering only say how it is to be written back.

use vstd::prelude::*;

use crate::text::{debug_quoted, quoted};

verus! {

/// An instant, as parsed from RFC 3339 text.
#[derive(Debug, Clone)]
pub struct Timestamp {
    /// Whole seconds since the Unix epoch.
    pub seconds: i64,
    /// Nanoseconds past `seconds` (at or above one billion only inside a leap
    /// second).
    pub nanos: u32,
    /// The UTC offset the instant is written in, in seconds east of UTC.
    pub offset_seconds: i32,
    /// The instant in RFC 3339 form, at `offset_seconds`.
    pub rfc3339: String,
}

/// The mathematical content of a [`Timestamp`].
pub struct TimeV {
    pub seconds: int,
    pub nanos: int,
    pub offset_seconds: int,
    pub rfc3339: Seq<char>,
}

impl View for Timestamp {
    type V = TimeV;

    open spec fn view(&self) -> TimeV {
        TimeV {
            seconds: self.seconds as int,
            nanos: self.nanos as int,
            offset_seconds: self.offset_seconds as int,
            rfc3339: self.rfc3339@,
        }
    }
}

impl TimeV {
    /// Strictly earlier, as instants.
    pub open spec fn before(self, other: TimeV) -> bool {
        self.seconds < other.seconds || (self.seconds == other.seconds && self.nanos < other.nanos)
    }

    /// The same instant, whatever the offset it is written in.
    pub open spec fn same_instant(self, other: TimeV) -> bool {
        self.seconds == other.seconds && self.nanos == other.nanos
    }

    /// At or before `other`, as instants.
    pub open spec fn not_after(self, other: TimeV) -> bool {
        !other.before(self)
    }
}

/// What `chrono` reads from an RFC 3339 text: `None` where it refuses the
/// text, otherwise the Unix seconds, sub-second nanoseconds, UTC offset in
/// seconds and the RFC 3339 rendering of the result.
pub uninterp spec fn rfc3339_reading(text: Seq<char>) -> Option<(i64, u32, i32, Seq<char>)>;

/// Whether `t` is what `rfc3339_reading` gives for its text.
pub open spec fn reads_as(reading: Option<(i64, u32, i32, Seq<char>)>, t: TimeV) -> bool {
    match reading {
        Some((s, n, o, text)) => t.seconds == s && t.nanos == n && t.offset_seconds == o
            && t.rfc3339 == text,
        None => false,
    }
}

/// Parses an RFC 3339 timestamp.
///
/// Calls `chrono::DateTime::parse_from_rfc3339` and reads back the instant
/// (`timestamp`, `timestamp_subsec_nanos`), the offset (`local_minus_utc`) and
/// `to_rfc3339`. The contract names the result as a function of the text alone.
#[verifier::external_body]
pub(crate) fn read_rfc3339(text: &str) -> (r: Option<Timestamp>)
    ensures
        r is None <==> rfc3339_reading(text@) is None,
        r matches Some(t) ==> reads_as(rfc3339_reading(text@), t@),
{
    match chrono::DateTime::parse_from_rfc3339(text) {
        Ok(dt) => Some(Timestamp {
            seconds: dt.timestamp(),
            nanos: dt.timestamp_subsec_nanos(),
            offset_seconds: dt.offset().local_minus_utc(),
            rfc3339: dt.to_rfc3339(),
        }),
        Err(_) => None,
    }
}

/// The complaint for a timestamp that does not parse: `parsing <what> "<text>"`.
pub open spec fn parse_failure_message(what: Seq<char>, text: Seq<char>) -> Seq<char> {
    "parsing "@ + what + " "@ + debug_quoted(text)
}

/// What reading `text` as `what` amounts to, given what the parser made of
/// it: the timestamp, or the complaint naming `what` and the text.
pub fn read_timestamp(parsed: Option<Timestamp>, text: &str, what: &str) -> (r: Result<
    Timestamp,
    String,
>)
    ensures
        r is Ok <==> parsed is Some,
        r matches Ok(t) ==> parsed == Some(t),
        r matches Err(m) ==> m@ == parse_failure_message(what@, text@),
{
    match parsed {
        Some(t) => Ok(t),
        None => {
            let mut m = String::from_str("parsing ");
            m.append(what);
            m.append(" ");
            m.append(quoted(text).as_str());
            Err(m)
        },
    }
}

/// Parses the RFC 3339 timestamp `text`, naming `what` was being read when it
/// does not parse.
pub fn parse_timestamp(text: &str, what: &str) -> (r: Result<Timestamp, String>)
    ensures
        r is Ok <==> rfc3339_reading(text@) is Some,
        r matches Ok(t) ==> reads_as(rfc3339_reading(text@), t@),
        r matches Err(m) ==> m@ == parse_failure_message(what@, text@),
{
    read_timestamp(read_rfc3339(text), text, what)
}

impl Timestamp {
    /// A copy of this timestamp.
    pub fn duplicate(&self) -> (r: Timestamp)
        ensures
            r@ == self@,
    {
        Timestamp {
            seconds: self.seconds,
            nanos: self.nanos,
            offset_seconds: self.offset_seconds,
            rfc3339: self.rfc3339.clone(),
        }
    }

    /// Whether this instant is strictly earlier than `other`.
    pub fn before(&self, other: &Timestamp) -> (b: bool)
        ensures
            b == self@.before(other@),
    {
        self.seconds < other.seconds || (self.seconds == other.seconds && self.nanos < other.nanos)
    }

    /// Whether this instant is at or before `other`.
    pub fn not_after(&self, other: &Timestamp) -> (b: bool)
        ensures
            b == self@.not_after(other@),
    {
        !other.before(self)
    }

    /// Whether this is the same instant as `other`.
    pub fn same_instant(&self, other: &Timestamp) -> (b: bool)
        ensures
            b == self@.same_instant(other@),
    {
        self.seconds == other.seconds && self.nanos == other.nanos
    }
}

} // verus!
