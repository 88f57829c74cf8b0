//! RFC 3339 text of timestamps, as the `chrono` crate writes and reads it.
use vstd::prelude::*;
use crate::domain::Timestamp;

verus! {

/// The timestamps that `chrono` can represent: the seconds within its date
/// range, the nanoseconds below one second, or below two seconds on the last
/// second of a minute (a leap second).
pub open spec fn timestamp_in_range(t: Timestamp) -> bool {
    &&& -8334601315200 <= t.secs <= 8210266876799
    &&& (t.nanos < 1_000_000_000 || (t.nanos < 2_000_000_000 && t.secs % 60 == 59))
}

/// `DateTime::<Utc>::from_timestamp(secs, nanos).to_rfc3339()`.
pub uninterp spec fn rfc3339_text(secs: int, nanos: int) -> Seq<char>;

/// `DateTime::parse_from_rfc3339(s)` converted to UTC: seconds and
/// nanoseconds, or the text of the parse error when `s` is not RFC 3339.
pub uninterp spec fn rfc3339_parse(s: Seq<char>) -> Result<(int, int), Seq<char>>;

/// `DateTime::<Utc>::from_timestamp(secs, nanos).format("%Y-%m-%d %H:%M")`.
pub uninterp spec fn minute_text(secs: int, nanos: int) -> Seq<char>;

/// Whether `chrono` can represent the timestamp.
pub fn timestamp_ok(t: Timestamp) -> (r: bool)
    ensures
        r == timestamp_in_range(t),
{
    if t.secs < -8334601315200 || t.secs > 8210266876799 {
        return false;
    }
    let shifted: u64 = (t.secs + 9_000_000_000_000) as u64;
    assert(shifted % 60 == t.secs % 60) by (nonlinear_arith)
        requires
            shifted == t.secs + 9_000_000_000_000,
    ;
    t.nanos < 1_000_000_000 || (t.nanos < 2_000_000_000 && shifted % 60 == 59)
}

/// Calls `chrono::DateTime::<Utc>::from_timestamp` and `format("%Y-%m-%d %H:%M")`.
#[verifier::external_body]
pub(crate) fn format_minute(t: Timestamp) -> (r: String)
    requires
        timestamp_in_range(t),
    ensures
        r@ == minute_text(t.secs as int, t.nanos as int),
{
    match chrono::DateTime::<chrono::Utc>::from_timestamp(t.secs, t.nanos) {
        Some(d) => d.format("%Y-%m-%d %H:%M").to_string(),
        None => String::new(),
    }
}

/// Calls `chrono::DateTime::<Utc>::from_timestamp` and `to_rfc3339`.
#[verifier::external_body]
pub(crate) fn to_rfc3339(t: Timestamp) -> (r: String)
    requires
        timestamp_in_range(t),
    ensures
        r@ == rfc3339_text(t.secs as int, t.nanos as int),
{
    match chrono::DateTime::<chrono::Utc>::from_timestamp(t.secs, t.nanos) {
        Some(d) => d.to_rfc3339(),
        None => String::new(),
    }
}

/// Calls `chrono::DateTime::parse_from_rfc3339` and converts the result to
/// UTC; on failure, hands back the `Display` text of the parse error. A
/// `DateTime` always lies in `chrono`'s range.
#[verifier::external_body]
pub(crate) fn parse_rfc3339_utc(s: &str) -> (r: Result<Timestamp, String>)
    ensures
        match r {
            Ok(t) => rfc3339_parse(s@) == Ok::<(int, int), Seq<char>>((t.secs as int, t.nanos as int))
                && timestamp_in_range(t),
            Err(e) => rfc3339_parse(s@) == Err::<(int, int), Seq<char>>(e@),
        },
{
    match chrono::DateTime::parse_from_rfc3339(s) {
        Ok(d) => {
            let u = d.with_timezone(&chrono::Utc);
            Ok(Timestamp { secs: u.timestamp(), nanos: u.timestamp_subsec_nanos() })
        },
        Err(e) => Err(e.to_string()),
    }
}

} // verus!
