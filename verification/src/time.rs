//! Instants as integers: nanoseconds since the Unix epoch, UTC.
//!
//! chrono does the calendar work; what the rest of the library reads of an
//! instant is this one number.

use vstd::prelude::*;
use chrono::TimeZone;

verus! {

/// Nanoseconds per second.
pub const NANOS_PER_SEC: i128 = 1_000_000_000;

/// Earliest millisecond timestamp chrono can represent (January 1st of year
/// -262143, 00:00:00.000 UTC).
pub const MIN_UTC_MILLIS: i64 = -8_334_601_228_800_000;

/// Latest millisecond timestamp chrono can represent (December 31st of year
/// 262142, 23:59:59.999 UTC).
pub const MAX_UTC_MILLIS: i64 = 8_210_266_876_799_999;

/// What chrono makes of an RFC 3339 timestamp converted to UTC: whole
/// seconds since the epoch and the nanoseconds past them (above a billion
/// only inside a leap second), or `None` when it does not parse.
pub uninterp spec fn rfc3339_instant(s: Seq<char>) -> Option<(i64, u32)>;

/// Seconds and nanoseconds as one count of nanoseconds.
pub open spec fn nanos_of(secs: i64, nanos: u32) -> int {
    secs as int * 1_000_000_000 + nanos as int
}

/// `Utc.timestamp_millis_opt(millis).single()`, as `(timestamp,
/// timestamp_subsec_nanos)`. chrono accepts exactly the milliseconds of its
/// representable range, and splits them with Euclidean division.
#[verifier::external_body]
pub(crate) fn utc_millis_parts(millis: i64) -> (r: Option<(i64, u32)>)
    ensures
        r is Some <==> MIN_UTC_MILLIS <= millis <= MAX_UTC_MILLIS,
        r matches Some((s, n)) ==> n < 1_000_000_000 && nanos_of(s, n) == millis as int
            * 1_000_000,
{
    chrono::Utc.timestamp_millis_opt(millis).single().map(
        |d| (d.timestamp(), d.timestamp_subsec_nanos()),
    )
}

/// `DateTime::parse_from_rfc3339(s)` in UTC, as `(timestamp,
/// timestamp_subsec_nanos)`. The calendar arithmetic is chrono's; the result
/// is a function of the text, and chrono keeps the nanoseconds below two
/// billion.
#[verifier::external_body]
pub(crate) fn rfc3339_parts(s: &str) -> (r: Option<(i64, u32)>)
    ensures
        r == rfc3339_instant(s@),
        r matches Some((_, n)) ==> n < 2_000_000_000,
{
    chrono::DateTime::parse_from_rfc3339(s).ok().map(
        |d| (d.timestamp(), d.timestamp_subsec_nanos()),
    )
}

/// The instant an RFC 3339 timestamp names, in nanoseconds since the epoch.
pub open spec fn rfc3339_nanos(s: Seq<char>) -> Option<int> {
    match rfc3339_instant(s) {
        Some((secs, n)) => Some(nanos_of(secs, n)),
        None => None,
    }
}

/// An RFC 3339 timestamp in nanoseconds since the epoch, UTC.
pub fn parse_ts(s: &str) -> (r: Option<i128>)
    ensures
        r matches Some(n) ==> rfc3339_nanos(s@) == Some(n as int),
        r is None ==> rfc3339_nanos(s@) is None,
{
    match rfc3339_parts(s) {
        Some((secs, n)) => Some(secs as i128 * NANOS_PER_SEC + n as i128),
        None => None,
    }
}

/// A millisecond timestamp in nanoseconds, if chrono can represent it.
pub open spec fn millis_instant(millis: i64) -> Option<int> {
    if MIN_UTC_MILLIS <= millis <= MAX_UTC_MILLIS {
        Some(millis as int * 1_000_000)
    } else {
        None
    }
}

/// A millisecond timestamp in nanoseconds, if chrono can represent it.
pub fn millis_to_nanos(millis: i64) -> (r: Option<i128>)
    ensures
        r matches Some(n) ==> millis_instant(millis) == Some(n as int),
        r is None ==> millis_instant(millis) is None,
{
    match utc_millis_parts(millis) {
        Some((secs, n)) => Some(secs as i128 * NANOS_PER_SEC + n as i128),
        None => None,
    }
}

/// chrono's RFC 3339 text for the UTC instant `secs` seconds and `nsec`
/// nanoseconds after the epoch, or `None` when chrono cannot represent it.
pub uninterp spec fn rfc3339_text(secs: i64, nsec: u32) -> Option<Seq<char>>;

/// `DateTime::from_timestamp(secs, nsec)` formatted with `to_rfc3339`.
#[verifier::external_body]
fn rfc3339_utc(secs: i64, nsec: u32) -> (r: Option<String>)
    ensures
        match r {
            Some(t) => rfc3339_text(secs, nsec) == Some(t@),
            None => rfc3339_text(secs, nsec) is None,
        },
{
    chrono::DateTime::from_timestamp(secs, nsec).map(|d| d.to_rfc3339())
}

/// The RFC 3339 text of an instant given in nanoseconds since the epoch.
pub open spec fn instant_text(n: int) -> Option<Seq<char>> {
    let secs = n / 1_000_000_000;
    let nsec = n % 1_000_000_000;
    if i64::MIN <= secs <= i64::MAX {
        rfc3339_text(secs as i64, nsec as u32)
    } else {
        None
    }
}

/// The RFC 3339 text of an instant given in nanoseconds since the epoch.
pub fn rfc3339_of(n: i128) -> (r: Option<String>)
    ensures
        match r {
            Some(t) => instant_text(n as int) == Some(t@),
            None => instant_text(n as int) is None,
        },
{
    let mut secs = n / NANOS_PER_SEC;
    let mut nsec = n % NANOS_PER_SEC;
    if nsec < 0 {
        secs = secs - 1;
        nsec = nsec + NANOS_PER_SEC;
    }
    assert(secs as int == n as int / 1_000_000_000 && nsec as int == n as int % 1_000_000_000) by (nonlinear_arith)
        requires
            (nsec >= 0 ==> secs * 1_000_000_000 + nsec == n),
            0 <= nsec < 1_000_000_000,
            secs * 1_000_000_000 + nsec == n,
    ;
    if secs < i64::MIN as i128 || secs > i64::MAX as i128 {
        return None;
    }
    rfc3339_utc(secs as i64, nsec as u32)
}

} // verus!
