//! Millisecond timestamps and the calls into `jiff` that parse, range-check
//! and render them.
use vstd::prelude::*;

verus! {

/// Milliseconds since the Unix epoch.
#[derive(Clone, Copy, Debug, PartialEq, Eq, Structural)]
pub struct TimestampMs(pub i64);

impl TimestampMs {
    /// Wraps a count of milliseconds since the Unix epoch.
    pub fn from_millis(millis: i64) -> (ts: TimestampMs)
        ensures
            ts.0 == millis,
    {
        TimestampMs(millis)
    }

    /// The count of milliseconds since the Unix epoch.
    pub fn as_millis(&self) -> (millis: i64)
        ensures
            millis == self.0,
    {
        self.0
    }
}

/// The smallest millisecond count that `jiff::Timestamp` can represent.
pub const JIFF_MIN_MILLIS: i64 = -377_705_023_201_000;

/// The largest millisecond count that `jiff::Timestamp` can represent.
pub const JIFF_MAX_MILLIS: i64 = 253_402_207_200_000;

/// Whether `millis` lies within the instants that `jiff::Timestamp` can hold.
pub open spec fn in_jiff_range(millis: int) -> bool {
    JIFF_MIN_MILLIS <= millis <= JIFF_MAX_MILLIS
}

/// The instant, in whole milliseconds, that jiff's `Timestamp` parser reads
/// from `text`, or `None` where it refuses the text.
pub uninterp spec fn parsed_timestamp_millis(text: Seq<char>) -> Option<i64>;

/// The instant that `parse_ts_timestamp` reads from `text`.
pub open spec fn parsed_timestamp(text: Seq<char>) -> Option<TimestampMs> {
    match parsed_timestamp_millis(text) {
        Some(m) => Some(TimestampMs(m)),
        None => None,
    }
}

/// jiff's RFC 3339 rendering, in UTC and with exactly three fractional
/// digits, of the instant `millis` milliseconds after the Unix epoch.
pub uninterp spec fn rfc3339_millis_text(millis: i64) -> Seq<char>;

/// Calls `<jiff::Timestamp as FromStr>::from_str` and then
/// `Timestamp::as_millisecond`. Claimed: the result is a function of the text
/// alone (jiff ignores any bracketed time zone annotation and uses the offset
/// in the text), named `parsed_timestamp_millis`.
#[verifier::external_body]
fn jiff_parse_millis(text: &str) -> (millis: Option<i64>)
    ensures
        millis == parsed_timestamp_millis(text@),
{
    text.parse::<jiff::Timestamp>().ok().map(|t| t.as_millisecond())
}

/// Calls `jiff::Timestamp::from_millisecond`. Claimed, as jiff documents and
/// its bounds give: it succeeds exactly on `JIFF_MIN_MILLIS ..= JIFF_MAX_MILLIS`.
#[verifier::external_body]
fn jiff_accepts_millis(millis: i64) -> (ok: bool)
    ensures
        ok == in_jiff_range(millis as int),
{
    jiff::Timestamp::from_millisecond(millis).is_ok()
}

/// Builds the `jiff::Timestamp` for `millis` and formats it with jiff's
/// `Display` at precision 3. Claimed: the text is a function of `millis`
/// alone, named `rfc3339_millis_text`.
#[verifier::external_body]
fn jiff_format_millis(millis: i64) -> (text: String)
    requires
        in_jiff_range(millis as int),
    ensures
        text@ == rfc3339_millis_text(millis),
{
    match jiff::Timestamp::from_millisecond(millis) {
        Ok(t) => format!("{:.3}", t),
        Err(_) => String::new(),
    }
}

/// Parses an RFC 3339 timestamp such as `2026-01-03T23:59:59.999Z`.
pub fn parse_ts_timestamp(text: &str) -> (ts: Option<TimestampMs>)
    ensures
        ts == parsed_timestamp(text@),
{
    match jiff_parse_millis(text) {
        Some(m) => Some(TimestampMs(m)),
        None => None,
    }
}

/// Whether `millis` names an instant that jiff can represent.
pub fn is_representable_millis(millis: i64) -> (ok: bool)
    ensures
        ok == in_jiff_range(millis as int),
{
    jiff_accepts_millis(millis)
}

/// Renders a timestamp as `YYYY-MM-DDTHH:MM:SS.mmmZ`.
pub fn format_rfc3339_millis(ts: TimestampMs) -> (text: String)
    requires
        in_jiff_range(ts.0 as int),
    ensures
        text@ == rfc3339_millis_text(ts.0),
{
    jiff_format_millis(ts.0)
}

} // verus!
