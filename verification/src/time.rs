//! Timestamps read through chrono, as instants (see `model`).
use vstd::prelude::*;

use chrono::TimeZone;

use crate::model::{instant, instant_of};

verus! {

/// What `chrono::NaiveDateTime::parse_from_str(value, format)` gives, read as
/// a UTC instant: the whole seconds since the epoch and the nanoseconds past
/// them, or `None` where chrono refuses the input.
pub uninterp spec fn naive_utc_parse(value: Seq<char>, format: Seq<char>) -> Option<(i64, u32)>;

/// What `chrono::DateTime::parse_from_rfc3339(value)` gives, as the whole
/// seconds since the epoch and the nanoseconds past them, or `None` where
/// chrono refuses the input.
pub uninterp spec fn rfc3339_parse(value: Seq<char>) -> Option<(i64, u32)>;

/// Calls `chrono::NaiveDateTime::parse_from_str` and reads the result as a UTC
/// instant (`and_utc`, then `timestamp` and `timestamp_subsec_nanos`). The
/// contract names chrono's result; it does not say which inputs chrono accepts.
#[verifier::external_body]
fn chrono_parse_naive(value: &str, format: &str) -> (r: Result<(i64, u32), chrono::ParseError>)
    ensures
        match r {
            Ok(p) => naive_utc_parse(value@, format@) == Some(p),
            Err(_) => naive_utc_parse(value@, format@) is None,
        },
{
    match chrono::NaiveDateTime::parse_from_str(value, format) {
        Ok(dt) => Ok((dt.and_utc().timestamp(), dt.and_utc().timestamp_subsec_nanos())),
        Err(e) => Err(e),
    }
}

/// Calls `chrono::DateTime::parse_from_rfc3339` and reads the instant it
/// denotes (`timestamp`, `timestamp_subsec_nanos`). The contract names
/// chrono's result; it does not say which inputs chrono accepts.
#[verifier::external_body]
fn chrono_parse_rfc3339(value: &str) -> (r: Option<(i64, u32)>)
    ensures
        r == rfc3339_parse(value@),
{
    match chrono::DateTime::parse_from_rfc3339(value) {
        Ok(dt) => Some((dt.timestamp(), dt.timestamp_subsec_nanos())),
        Err(_) => None,
    }
}

/// The instant that `value` names in `format`, taken as UTC.
pub open spec fn spec_parse_utc(value: Seq<char>, format: Seq<char>) -> Option<int> {
    match naive_utc_parse(value, format) {
        Some(p) => Some(instant_of(p.0, p.1)),
        None => None,
    }
}

/// The instant that the RFC 3339 text `value` names.
pub open spec fn spec_parse_rfc3339(value: Seq<char>) -> Option<int> {
    match rfc3339_parse(value) {
        Some(p) => Some(instant_of(p.0, p.1)),
        None => None,
    }
}

/// The instant that `value` names in `format`, taken as UTC;
/// chrono's error where it refuses the input.
pub fn parse_utc(value: &str, format: &str) -> (r: Result<i128, chrono::ParseError>)
    ensures
        match r {
            Ok(t) => spec_parse_utc(value@, format@) == Some(t as int),
            Err(_) => spec_parse_utc(value@, format@) is None,
        },
{
    match chrono_parse_naive(value, format) {
        Ok((secs, nanos)) => Ok(instant(secs, nanos)),
        Err(e) => Err(e),
    }
}

/// The instant that the RFC 3339 text `value` names.
pub fn parse_rfc3339_instant(value: &str) -> (r: Option<i128>)
    ensures
        match r {
            Some(t) => spec_parse_rfc3339(value@) == Some(t as int),
            None => spec_parse_rfc3339(value@) is None,
        },
{
    match chrono_parse_rfc3339(value) {
        Some((secs, nanos)) => Some(instant(secs, nanos)),
        None => None,
    }
}

/// Bound on the seconds since the epoch at which the time zone of a request is
/// asked for today's midnight: about 253,000 years either way, inside the
/// range of chrono's dates.
pub const MAX_NOW_SECS: i64 = 8_000_000_000_000i64;

/// Whether the tz database compiled into chrono-tz has a zone of this exact
/// name.
pub uninterp spec fn known_zone(name: Seq<char>) -> bool;

/// `chrono_tz::Tz`'s `FromStr`, which looks the name up in the zone table
/// compiled into the crate; the contract names the answer.
#[verifier::external_body]
pub(crate) fn zone_known(name: &str) -> (r: bool)
    ensures
        r == known_zone(name@),
{
    name.parse::<chrono_tz::Tz>().is_ok()
}

/// For the zone `name` and the instant `now_secs` (seconds since the epoch):
/// the instant of local midnight starting the zone's current day, where the
/// zone maps that local time to exactly one instant; and the instant whose
/// UTC reading is that midnight. Both in seconds since the epoch.
pub uninterp spec fn zone_midnight(name: Seq<char>, now_secs: i64) -> (Option<i64>, i64);

/// Asks chrono-tz for the local date of `now_secs` in the zone `name`, its
/// midnight resolved by `from_local_datetime(..).single()`, and that midnight
/// read as UTC (`and_utc`). The contract names the result, which is a
/// function of the zone table compiled into chrono-tz and of the arguments.
#[verifier::external_body]
pub(crate) fn local_midnight(name: &str, now_secs: i64) -> (r: (Option<i64>, i64))
    requires
        known_zone(name@),
        -MAX_NOW_SECS <= now_secs <= MAX_NOW_SECS,
    ensures
        r == zone_midnight(name@, now_secs),
{
    let zone: chrono_tz::Tz = name.parse().expect("the zone is known");
    let now = chrono::DateTime::from_timestamp(now_secs, 0).expect("the instant is in range");
    let midnight = now.with_timezone(&zone).date_naive().and_hms_opt(0, 0, 0).expect("midnight exists");
    let resolved = match zone.from_local_datetime(&midnight).single() {
        Some(t) => Some(t.timestamp()),
        None => None,
    };
    (resolved, midnight.and_utc().timestamp())
}

} // verus!
