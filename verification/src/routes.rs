//! Reading and checking the query parameters of the HTTP API.
use vstd::prelude::*;

use crate::error::ApiError;
use crate::filter::Filter;
use crate::schools::{SchoolView, SchoolsConfig};
use crate::text::{
    char_views, chars_of, concat_str, split_chars, split_on, string_of, trim, trim_chars, views,
};
use crate::model::{instant, instant_of, TICKS_PER_SECOND};
use crate::time::{
    known_zone, local_midnight, parse_rfc3339_instant, spec_parse_rfc3339, zone_known, zone_midnight,
    MAX_NOW_SECS,
};

verus! {

/// Error text when the school parameter is missing.
pub const MISSING_SCHOOL: &'static str = "missing required query parameter: school";

/// Error text when the schedule ids parameter is missing.
pub const MISSING_SCHEDULE_IDS: &'static str = "missing required query parameter: schedule_ids";

/// Error text when the search query parameter is missing.
pub const MISSING_SEARCH_QUERY: &'static str = "missing required query parameter: search_query";

/// Body of the 404 answer.
pub const NOT_FOUND_BODY: &'static str = "404 - Not Found";

/// Body of the 500 answer.
pub const INTERNAL_ERROR_BODY: &'static str = "500 - Internal Server Error";

/// Time zone of `today` when none is given.
pub const DEFAULT_TZ: &'static str = "Europe/Stockholm";

/// Number of events `next` gives when no valid count is asked for.
pub const DEFAULT_NEXT: usize = 5;

/// Most events `next` gives.
pub const MAX_NEXT: usize = 50;

/// What one day (86,400 seconds) adds to an instant.
pub const DAY_TICKS: i128 = 172_800_000_000_000i128;

/// The answer to a request for an unknown path.
pub fn not_found() -> (r: &'static str)
    ensures
        r@ == NOT_FOUND_BODY@,
{
    NOT_FOUND_BODY
}

/// The answer to a request that failed on our side.
pub fn internal_error() -> (r: &'static str)
    ensures
        r@ == INTERNAL_ERROR_BODY@,
{
    INTERNAL_ERROR_BODY
}

/// An optional string slice, taken by its view.
pub open spec fn str_view(value: Option<&str>) -> Option<Seq<char>> {
    match value {
        Some(s) => Some(s@),
        None => None,
    }
}

/// Whether a request names a school: the parameter is given and non-empty.
pub open spec fn school_given(school: Option<Seq<char>>) -> bool {
    school matches Some(code) && code.len() > 0
}

/// Whether a request names a configured school.
pub open spec fn school_known(schools: Map<Seq<char>, SchoolView>, school: Option<Seq<char>>) -> bool {
    school matches Some(code) && code.len() > 0 && schools.contains_key(code)
}

/// The error with which a request's school is refused: a named school that is
/// not configured is answered with the configured codes, each once; a
/// missing one is a bad request.
pub open spec fn school_refusal(schools: Map<Seq<char>, SchoolView>, school: Option<Seq<char>>, e: ApiError) -> bool {
    if school_given(school) {
        e matches ApiError::UnknownSchool(allowed) && views(allowed@).no_duplicates() && forall|c: Seq<char>|
            #[trigger] views(allowed@).contains(c) <==> schools.contains_key(c)
    } else {
        e matches ApiError::BadRequest(m) && m@ == MISSING_SCHOOL@
    }
}

/// The school code of a request: it must be given, non-empty and configured.
pub fn require_school(schools: &SchoolsConfig, school: Option<&str>) -> (r: Result<String, ApiError>)
    ensures
        match r {
            Ok(s) => school_known(schools@, str_view(school)) && s@ == str_view(school)->0,
            Err(e) => !school_known(schools@, str_view(school)) && school_refusal(schools@, str_view(school), e),
        },
{
    match school {
        Some(code) => {
            if !code.is_empty() {
                if schools.get(code).is_some() {
                    return Ok(code.to_owned());
                } else {
                    return Err(ApiError::UnknownSchool(schools.allowed()));
                }
            }
        },
        None => {},
    }
    Err(ApiError::BadRequest(MISSING_SCHOOL.to_owned()))
}

/// Whether a request gives schedule ids: the parameter is given and
/// non-empty.
pub open spec fn ids_given(value: Option<Seq<char>>) -> bool {
    value matches Some(raw) && raw.len() > 0
}

/// The schedule ids a comma-separated list names, each trimmed.
pub open spec fn split_ids(raw: Seq<char>) -> Seq<Seq<char>> {
    split_on(raw, ',').map_values(|p: Seq<char>| trim(p))
}

/// The schedule ids of a request: a non-empty comma-separated list, each id
/// trimmed.
pub fn split_schedule_ids(value: Option<&str>) -> (r: Result<Vec<String>, ApiError>)
    ensures
        match r {
            Ok(ids) => ids_given(str_view(value)) && views(ids@) == split_ids(str_view(value)->0),
            Err(e) => !ids_given(str_view(value)) && (e matches ApiError::BadRequest(m) && m@
                == MISSING_SCHEDULE_IDS@),
        },
{
    match value {
        Some(raw) => {
            if !raw.is_empty() {
                let chars = chars_of(raw);
                let parts = split_chars(&chars, ',');
                let ghost pv = char_views(parts@);
                let mut ids: Vec<String> = Vec::new();
                let mut i: usize = 0;
                while i < parts.len()
                    invariant
                        i <= parts.len(),
                        pv == char_views(parts@),
                        views(ids@) == pv.take(i as int).map_values(|p: Seq<char>| trim(p)),
                    decreases parts.len() - i,
                {
                    let t = trim_chars(&parts[i]);
                    let ghost before = ids@;
                    ids.push(string_of(&t));
                    proof {
                        assert(views(ids@) =~= views(before).push(trim(pv[i as int])));
                        assert(pv.take(i + 1) =~= pv.take(i as int).push(pv[i as int]));
                        assert(views(ids@) =~= pv.take(i + 1).map_values(|p: Seq<char>| trim(p)));
                    }
                    i = i + 1;
                }
                proof {
                    assert(pv.take(parts.len() as int) =~= pv);
                }
                return Ok(ids);
            }
        },
        None => {},
    }
    Err(ApiError::BadRequest(MISSING_SCHEDULE_IDS.to_owned()))
}

/// The search text of a programme search: it must be given and non-empty.
pub fn require_search_query(search_query: Option<&str>) -> (r: Result<String, ApiError>)
    ensures
        match search_query {
            Some(text) if text@.len() > 0 => r matches Ok(s) && s@ == text@,
            _ => r matches Err(ApiError::BadRequest(m)) && m@ == MISSING_SEARCH_QUERY@,
        },
{
    match search_query {
        Some(text) => {
            if !text.is_empty() {
                return Ok(text.to_owned());
            }
        },
        None => {},
    }
    Err(ApiError::BadRequest(MISSING_SEARCH_QUERY.to_owned()))
}

/// The text of the error for a bound that is not RFC 3339.
pub open spec fn invalid_bound_message(field: Seq<char>) -> Seq<char> {
    "invalid "@ + field + ": expected RFC3339"@
}

/// An optional RFC 3339 bound of a request, as an instant; a bound that is
/// given but not RFC 3339 is a bad request that names the field.
pub fn parse_rfc3339(value: Option<&str>, field: &str) -> (r: Result<Option<i128>, ApiError>)
    ensures
        match value {
            None => r matches Ok(None),
            Some(raw) => match spec_parse_rfc3339(raw@) {
                Some(t) => r matches Ok(Some(x)) && x == t,
                None => r matches Err(ApiError::BadRequest(m)) && m@ == invalid_bound_message(
                    field@,
                ),
            },
        },
{
    match value {
        None => Ok(None),
        Some(raw) => match parse_rfc3339_instant(raw) {
            Some(t) => Ok(Some(t)),
            None => {
                let head = concat_str("invalid ", field);
                let message = concat_str(head.as_str(), ": expected RFC3339");
                Err(ApiError::BadRequest(message))
            },
        },
    }
}

/// The query parameters of the schedule endpoints, as given.
#[derive(Debug)]
pub struct ScheduleQuery {
    pub schedule_ids: Option<String>,
    pub school: Option<String>,
    pub room_id: Option<String>,
    pub teacher_id: Option<String>,
    pub course_id: Option<String>,
    pub from: Option<String>,
    pub to: Option<String>,
}

/// The checked input of a schedule endpoint.
#[derive(Debug)]
pub struct ScheduleInput {
    pub schedule_ids: Vec<String>,
    pub school: String,
    pub filter: Filter,
}

/// An optional owned string as an optional string slice.
fn as_str_option(value: &Option<String>) -> (r: Option<&str>)
    ensures
        match value {
            Some(s) => r matches Some(x) && x@ == s@,
            None => r is None,
        },
{
    match value {
        Some(s) => Some(s.as_str()),
        None => None,
    }
}

/// An optional string, taken by its view.
pub open spec fn opt_view(value: Option<String>) -> Option<Seq<char>> {
    match value {
        Some(s) => Some(s@),
        None => None,
    }
}

/// Whether an optional RFC 3339 bound is given but unreadable.
pub open spec fn bound_invalid(value: Option<Seq<char>>) -> bool {
    value matches Some(raw) && spec_parse_rfc3339(raw) is None
}

/// The instant an optional RFC 3339 bound names.
pub open spec fn bound_of(value: Option<Seq<char>>) -> Option<i128> {
    match value {
        Some(raw) => match spec_parse_rfc3339(raw) {
            Some(t) => Some(t as i128),
            None => None,
        },
        None => None,
    }
}

/// Checks the schedule query: the school, then the schedule ids, then the
/// `from` and `to` bounds, the first failure being the answer; the room,
/// teacher and course conditions are taken as given.
pub fn parse(schools: &SchoolsConfig, query: ScheduleQuery) -> (r: Result<ScheduleInput, ApiError>)
    ensures
        match r {
            Ok(input) => {
                &&& school_known(schools@, opt_view(query.school))
                &&& input.school@ == opt_view(query.school)->0
                &&& ids_given(opt_view(query.schedule_ids))
                &&& views(input.schedule_ids@) == split_ids(opt_view(query.schedule_ids)->0)
                &&& !bound_invalid(opt_view(query.from))
                &&& !bound_invalid(opt_view(query.to))
                &&& opt_view(input.filter.room_id) == opt_view(query.room_id)
                &&& opt_view(input.filter.teacher_id) == opt_view(query.teacher_id)
                &&& opt_view(input.filter.course_id) == opt_view(query.course_id)
                &&& input.filter.from == bound_of(opt_view(query.from))
                &&& input.filter.to == bound_of(opt_view(query.to))
            },
            Err(e) => if !school_known(schools@, opt_view(query.school)) {
                school_refusal(schools@, opt_view(query.school), e)
            } else if !ids_given(opt_view(query.schedule_ids)) {
                e matches ApiError::BadRequest(m) && m@ == MISSING_SCHEDULE_IDS@
            } else if bound_invalid(opt_view(query.from)) {
                e matches ApiError::BadRequest(m) && m@ == invalid_bound_message("from"@)
            } else {
                bound_invalid(opt_view(query.to)) && (e matches ApiError::BadRequest(m) && m@
                    == invalid_bound_message("to"@))
            },
        },
{
    let school = match require_school(schools, as_str_option(&query.school)) {
        Ok(s) => s,
        Err(e) => return Err(e),
    };
    let schedule_ids = match split_schedule_ids(as_str_option(&query.schedule_ids)) {
        Ok(ids) => ids,
        Err(e) => return Err(e),
    };
    let from = match parse_rfc3339(as_str_option(&query.from), "from") {
        Ok(t) => t,
        Err(e) => return Err(e),
    };
    let to = match parse_rfc3339(as_str_option(&query.to), "to") {
        Ok(t) => t,
        Err(e) => return Err(e),
    };
    let filter = Filter {
        room_id: query.room_id,
        teacher_id: query.teacher_id,
        course_id: query.course_id,
        from,
        to,
    };
    Ok(ScheduleInput { schedule_ids, school, filter })
}

/// The number of events `next` gives: the asked count where it lies in
/// `1..=50`, else 5.
pub fn next_limit(n: Option<usize>) -> (r: usize)
    ensures
        r == match n {
            Some(v) if 1 <= v <= MAX_NEXT => v,
            _ => DEFAULT_NEXT,
        },
{
    match n {
        Some(v) => if 1 <= v && v <= MAX_NEXT {
            v
        } else {
            DEFAULT_NEXT
        },
        None => DEFAULT_NEXT,
    }
}

/// The time zone name of `today`: the one given, else Stockholm's.
pub fn zone_name(tz: Option<&str>) -> (r: &str)
    ensures
        match tz {
            Some(name) => r@ == name@,
            None => r@ == DEFAULT_TZ@,
        },
{
    match tz {
        Some(name) => name,
        None => DEFAULT_TZ,
    }
}

/// The error for a time zone name that chrono-tz does not know.
pub fn invalid_tz(tz_name: &str) -> (r: ApiError)
    ensures
        r matches ApiError::BadRequest(m) && m@ == "invalid tz: "@ + tz_name@,
{
    ApiError::BadRequest(concat_str("invalid tz: ", tz_name))
}

/// The start of today's window, as an instant: local midnight as the time
/// zone resolves it where that is unambiguous, else the instant whose UTC
/// reading is that midnight (both given in seconds).
pub open spec fn window_start(midnight: (Option<i64>, i64)) -> int {
    match midnight.0 {
        Some(t) => instant_of(t, 0),
        None => instant_of(midnight.1, 0),
    }
}

/// Today's window starts at the zone's own midnight whenever the zone
/// resolves it to exactly one instant, east or west of UTC, whether that
/// instant comes before or after the midnight's UTC reading; only where it
/// does not is the UTC reading used. The window is one day long.
pub proof fn lemma_window_starts_at_local_midnight(resolved: Option<i64>, utc_midnight: i64)
    ensures
        resolved matches Some(t) ==> window_start((resolved, utc_midnight)) == t * 2_000_000_000,
        resolved is None ==> window_start((resolved, utc_midnight)) == utc_midnight * 2_000_000_000,
        DAY_TICKS == 86_400 * 2_000_000_000,
{
}

/// Today's window `[start, start + 1 day)` from the zone's midnight (see
/// [`window_start`]).
pub fn day_window(resolved_midnight: Option<i64>, utc_midnight: i64) -> (r: (i128, i128))
    ensures
        r.0 == window_start((resolved_midnight, utc_midnight)),
        r.0 == match resolved_midnight {
            Some(t) => t * TICKS_PER_SECOND,
            None => utc_midnight * TICKS_PER_SECOND,
        },
        r.1 == r.0 + DAY_TICKS,
{
    let start = match resolved_midnight {
        Some(t) => instant(t, 0),
        None => instant(utc_midnight, 0),
    };
    (start, start + DAY_TICKS)
}

/// The window of `today` in the zone `zone_name` at `now_secs` (seconds since
/// the epoch); a zone that chrono-tz does not know is a bad request naming it.
pub fn today_window(zone_name: &str, now_secs: i64) -> (r: Result<(i128, i128), ApiError>)
    requires
        -MAX_NOW_SECS <= now_secs <= MAX_NOW_SECS,
    ensures
        match r {
            Ok(w) => known_zone(zone_name@) && w.0 == window_start(zone_midnight(zone_name@, now_secs))
                && w.1 == w.0 + DAY_TICKS && w.0 == match zone_midnight(zone_name@, now_secs).0 {
                Some(t) => t * TICKS_PER_SECOND,
                None => zone_midnight(zone_name@, now_secs).1 * TICKS_PER_SECOND,
            },
            Err(e) => !known_zone(zone_name@) && (e matches ApiError::BadRequest(m) && m@
                == "invalid tz: "@ + zone_name@),
        },
{
    if !zone_known(zone_name) {
        return Err(invalid_tz(zone_name));
    }
    let (resolved, utc) = local_midnight(zone_name, now_secs);
    Ok(day_window(resolved, utc))
}

} // verus!
