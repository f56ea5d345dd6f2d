//! The time of day.

use vstd::prelude::*;

verus! {

/// A moment: seconds since 1970, and nanoseconds since the second began.
#[derive(Debug, Clone, Copy, PartialEq, Eq, Structural)]
pub struct Timestamp {
    pub secs: i64,
    pub nanos: u32,
}

/// The present moment, as `chrono::Utc::now` tells it. Nothing is known of it.
#[verifier::external_body]
pub(crate) fn present() -> (r: Timestamp) {
    let t = chrono::Utc::now();
    Timestamp { secs: t.timestamp(), nanos: t.timestamp_subsec_nanos() }
}

/// How `chrono` shows a moment, or the start of 1970 for one that it cannot
/// hold.
pub uninterp spec fn moment_text(secs: i64, nanos: u32) -> Seq<char>;

/// A moment in words: `to_string` of `chrono::DateTime::from_timestamp`, with
/// the default date for a moment that `chrono` cannot hold. The text depends on
/// the moment alone.
#[verifier::external_body]
pub(crate) fn show_moment(t: Timestamp) -> (r: String)
    ensures
        r@ == moment_text(t.secs, t.nanos),
{
    chrono::DateTime::from_timestamp(t.secs, t.nanos).unwrap_or_default().to_string()
}

/// A moment as RFC 3339 text, or the start of 1970 for one that `chrono` cannot
/// hold.
pub uninterp spec fn rfc3339_text(secs: i64, nanos: u32) -> Seq<char>;

/// The moment that an RFC 3339 text stands for, if it is one.
pub uninterp spec fn rfc3339_moment(s: Seq<char>) -> Option<Timestamp>;

/// A moment of the years 0 to 9999 that is no leap second.
pub open spec fn has_four_digit_year(t: Timestamp) -> bool {
    -62_167_219_200 <= t.secs <= 253_402_300_799 && t.nanos < 1_000_000_000
}

/// A moment as RFC 3339 text: `chrono::DateTime::to_rfc3339` of the date that
/// `from_timestamp` gives, or of the default date for a moment that `chrono`
/// cannot hold. The text depends on the moment alone. It has all digits of the
/// nanoseconds that are not zero, so that the moment can be read from it again if
/// its year has four digits.
#[verifier::external_body]
pub(crate) fn write_rfc3339(t: Timestamp) -> (r: String)
    ensures
        r@ == rfc3339_text(t.secs, t.nanos),
        has_four_digit_year(t) ==> rfc3339_moment(r@) == Some(t),
{
    chrono::DateTime::from_timestamp(t.secs, t.nanos).unwrap_or_default().to_rfc3339()
}

/// Reads an RFC 3339 text with `chrono::DateTime::parse_from_rfc3339`. The
/// moment depends on the text alone.
#[verifier::external_body]
pub(crate) fn read_rfc3339(s: &str) -> (r: Option<Timestamp>)
    ensures
        r == rfc3339_moment(s@),
{
    match chrono::DateTime::parse_from_rfc3339(s) {
        Ok(t) => Some(Timestamp { secs: t.timestamp(), nanos: t.timestamp_subsec_nanos() }),
        Err(_) => None,
    }
}

/// A new identifier: the text of `uuid::Uuid::new_v4`. It is random, and
/// nothing is known of it.
#[verifier::external_body]
pub(crate) fn fresh_id() -> (r: String) {
    uuid::Uuid::new_v4().to_string()
}

} // verus!
