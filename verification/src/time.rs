//! UTC timestamps, held as whole nanoseconds since 1970-01-01T00:00:00Z, and
//! their parsing from text by chrono.

use vstd::prelude::*;

verus! {

/// chrono's error for a text that is not a timestamp.
#[verifier::external_type_specification]
#[verifier::external_body]
pub struct ExChronoParseError(chrono::ParseError);

/// What chrono's `DateTime<Utc>` parser gives for `text`, split as chrono
/// splits an instant: whole seconds since the Unix epoch and the nanoseconds
/// past that second; `None` when the text is refused.
pub uninterp spec fn utc_instant(text: Seq<char>) -> Option<(int, int)>;

/// The instant that `text` denotes in nanoseconds since the Unix epoch, or
/// `None` when chrono refuses the text.
pub open spec fn utc_nanos(text: Seq<char>) -> Option<int> {
    match utc_instant(text) {
        Some((secs, nanos)) => Some(secs * 1_000_000_000 + nanos),
        None => None,
    }
}

/// Parses `text` with chrono's `FromStr` for `DateTime<Utc>` (RFC 3339, with a
/// space also accepted between date and time, any offset converted to UTC) and
/// splits a success with `timestamp` and `timestamp_subsec_nanos`. Claimed: the
/// outcome depends on the text alone, and is `Err` exactly when the name gives
/// `None`. What chrono accepts is not restated here.
#[verifier::external_body]
fn parse_utc_instant(text: &str) -> (r: Result<(i64, u32), chrono::ParseError>)
    ensures
        match r {
            Ok((secs, nanos)) => utc_instant(text@) == Some((secs as int, nanos as int)),
            Err(_) => utc_instant(text@) is None,
        },
{
    match text.parse::<chrono::DateTime<chrono::Utc>>() {
        Ok(t) => Ok((t.timestamp(), t.timestamp_subsec_nanos())),
        Err(e) => Err(e),
    }
}

/// The instant that `text` (an ISO-8601 / RFC 3339 timestamp) denotes, in
/// nanoseconds since the Unix epoch; `None` when it is no timestamp.
pub fn parse_utc(text: &str) -> (r: Option<i128>)
    ensures
        match r {
            Some(ns) => utc_nanos(text@) == Some(ns as int),
            None => utc_nanos(text@) is None,
        },
{
    match parse_utc_instant(text) {
        Ok((secs, nanos)) => Some(secs as i128 * 1_000_000_000 + nanos as i128),
        Err(_) => None,
    }
}

} // verus!
