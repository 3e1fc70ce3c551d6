//! The requests the KronoX client makes: their URLs, their query parameters
//! and how their answers' status is judged. Sending them is left to the
//! caller's HTTP client.
use vstd::prelude::*;

use crate::error::KronoxError;
use crate::schedule::keyed_views;
use crate::text::{chars_of, join, join_str, string_of, strip_suffixes, strip_suffixes_chars, views};

verus! {

/// The path of the schedule document below a school's base URL.
pub const SCHEDULE_PATH: &'static str = "setup/jsp/SchemaXML.jsp";

/// The path of the programme search below a school's base URL.
pub const PROGRAMMES_PATH: &'static str = "ajax/ajax_sokResurser.jsp";

/// The `startDatum` that asks KronoX for today's schedule.
pub const TODAY: &'static str = "idag";

/// The format of a `startDatum` that names a date.
pub const DATE_FORMAT: &'static str = "%Y-%m-%d";

/// Whether `year` is a leap year of the proleptic Gregorian calendar.
pub open spec fn is_leap_year(year: int) -> bool {
    (year % 4 == 0 && year % 100 != 0) || year % 400 == 0
}

/// The number of days in a month of a year.
pub open spec fn days_in_month(year: int, month: int) -> int {
    if month == 2 {
        if is_leap_year(year) {
            29
        } else {
            28
        }
    } else if month == 4 || month == 6 || month == 9 || month == 11 {
        30
    } else {
        31
    }
}

/// Whether year, month and day name a day of the proleptic Gregorian
/// calendar.
pub open spec fn is_calendar_day(year: int, month: int, day: int) -> bool {
    1 <= month <= 12 && 1 <= day <= days_in_month(year, month)
}

/// The decimal digit `n` (0 to 9).
pub open spec fn digit_char(n: int) -> char {
    (n + 48) as char
}

/// `n` written with two digits, zero-padded.
pub open spec fn two_digits(n: int) -> Seq<char> {
    seq![digit_char(n / 10 % 10), digit_char(n % 10)]
}

/// `n` written with four digits, zero-padded.
pub open spec fn four_digits(n: int) -> Seq<char> {
    seq![digit_char(n / 1000 % 10), digit_char(n / 100 % 10), digit_char(n / 10 % 10), digit_char(n % 10)]
}

/// A date written `YYYY-MM-DD`.
pub open spec fn iso_date(year: int, month: int, day: int) -> Seq<char> {
    four_digits(year) + seq!['-'] + two_digits(month) + seq!['-'] + two_digits(day)
}

/// What chrono writes for a calendar date under `%Y-%m-%d`, where the date
/// exists in chrono's range.
pub uninterp spec fn formatted_date(year: i32, month: u32, day: u32) -> Option<Seq<char>>;

/// `chrono::NaiveDate::from_ymd_opt` followed by `format("%Y-%m-%d")`:
/// chrono gives no date for a day that does not exist, and writes `%Y` as the
/// year zero-padded to four digits for the years 0 to 9999, `%m` and `%d`
/// as two zero-padded digits. Of other years only that the result is a
/// function of the arguments is stated.
#[verifier::external_body]
fn format_date(year: i32, month: u32, day: u32, format: &str) -> (r: Option<String>)
    requires
        format@ == DATE_FORMAT@,
    ensures
        match r {
            Some(s) => formatted_date(year, month, day) == Some(s@),
            None => formatted_date(year, month, day) is None,
        },
        !is_calendar_day(year as int, month as int, day as int) ==> r is None,
        (0 <= year <= 9999 && is_calendar_day(year as int, month as int, day as int)) ==> r
            is Some && r->0@ == iso_date(year as int, month as int, day as int),
{
    match chrono::NaiveDate::from_ymd_opt(year, month, day) {
        Some(date) => Some(date.format(format).to_string()),
        None => None,
    }
}

/// The `startDatum` of a schedule request: today where no date is given,
/// else the date as `YYYY-MM-DD`; `None` where the date does not exist.
pub fn start_datum(start_date: Option<(i32, u32, u32)>) -> (r: Option<String>)
    ensures
        match start_date {
            None => r is Some && r->0@ == TODAY@,
            Some((y, m, d)) => {
                &&& match r {
                    Some(s) => formatted_date(y, m, d) == Some(s@),
                    None => formatted_date(y, m, d) is None,
                }
                &&& (0 <= y <= 9999 && is_calendar_day(y as int, m as int, d as int)) ==> r is Some
                    && r->0@ == iso_date(y as int, m as int, d as int)
                &&& !is_calendar_day(y as int, m as int, d as int) ==> r is None
            },
        },
{
    match start_date {
        None => Some(TODAY.to_owned()),
        Some((y, m, d)) => format_date(y, m, d, DATE_FORMAT),
    }
}

/// The query of a schedule request: from `start_datum` on, one interval of
/// the default kind, in English, any of the schedules (joined by commas), with
/// the explanation tables.
pub open spec fn schedule_query(start_datum: Seq<char>, resurser: Seq<char>) -> Seq<(Seq<char>, Seq<char>)> {
    seq![
        ("startDatum"@, start_datum),
        ("intervallTyp"@, "a"@),
        ("intervallAntal"@, "1"@),
        ("sprak"@, "EN"@),
        ("sokMedAND"@, "false"@),
        ("forklaringar"@, "true"@),
        ("resurser"@, resurser),
    ]
}

/// The query parameters of a schedule request.
pub fn schedule_params(start_datum: &str, schedule_ids: &[String]) -> (r: Vec<(String, String)>)
    ensures
        keyed_views(r@) == schedule_query(start_datum@, join(views(schedule_ids@), seq![','])),
{
    let resurser = join_str(schedule_ids, ',');
    let r = vec![
        ("startDatum".to_owned(), start_datum.to_owned()),
        ("intervallTyp".to_owned(), "a".to_owned()),
        ("intervallAntal".to_owned(), "1".to_owned()),
        ("sprak".to_owned(), "EN".to_owned()),
        ("sokMedAND".to_owned(), "false".to_owned()),
        ("forklaringar".to_owned(), "true".to_owned()),
        ("resurser".to_owned(), resurser),
    ];
    proof {
        assert(keyed_views(r@) =~= schedule_query(start_datum@, join(views(schedule_ids@), seq![','])));
    }
    r
}

/// The query of a programme search: the words, over the six months from
/// today.
pub open spec fn programme_query(query: Seq<char>) -> Seq<(Seq<char>, Seq<char>)> {
    seq![
        ("sokord"@, query),
        ("startDatum"@, "idag"@),
        ("slutDatum"@, ""@),
        ("intervallTyp"@, "m"@),
        ("intervallAntal"@, "6"@),
    ]
}

/// The query parameters of a programme search.
pub fn programme_params(query: &str) -> (r: Vec<(String, String)>)
    ensures
        keyed_views(r@) == programme_query(query@),
{
    let r = vec![
        ("sokord".to_owned(), query.to_owned()),
        ("startDatum".to_owned(), "idag".to_owned()),
        ("slutDatum".to_owned(), "".to_owned()),
        ("intervallTyp".to_owned(), "m".to_owned()),
        ("intervallAntal".to_owned(), "6".to_owned()),
    ];
    proof {
        assert(keyed_views(r@) =~= programme_query(query@));
    }
    r
}

/// The address of `path` below `base_url`: the base without its trailing
/// slashes, a slash, and the path.
pub open spec fn endpoint(base_url: Seq<char>, path: Seq<char>) -> Seq<char> {
    strip_suffixes(base_url, seq!['/']) + seq!['/'] + path
}

/// The serialization of the URL that `url::Url::parse` reads from `input`,
/// or `None` where it reports an error.
pub uninterp spec fn parsed_url(input: Seq<char>) -> Option<Seq<char>>;

/// `url::Url::parse`, its result given as the URL's serialization
/// (`String::from(Url)`). The WHATWG parsing it does is not restated; the
/// result is a function of the input.
#[verifier::external_body]
fn url_parse(input: &str) -> (r: Result<String, url::ParseError>)
    ensures
        match r {
            Ok(s) => parsed_url(input@) == Some(s@),
            Err(_) => parsed_url(input@) is None,
        },
{
    match url::Url::parse(input) {
        Ok(url) => Ok(String::from(url)),
        Err(e) => Err(e),
    }
}

/// The URL of a request for `path` at a school's `base_url`, or
/// `KronoxError::Url` where it is not a valid absolute URL.
pub fn request_url(base_url: &str, path: &str) -> (r: Result<String, KronoxError>)
    ensures
        match r {
            Ok(s) => parsed_url(endpoint(base_url@, path@)) == Some(s@),
            Err(e) => parsed_url(endpoint(base_url@, path@)) is None && e is Url,
        },
{
    let slash: Vec<char> = vec!['/'];
    proof {
        assert(slash@ =~= seq!['/']);
    }
    let mut joined = strip_suffixes_chars(&chars_of(base_url), &slash);
    joined.push('/');
    let p = chars_of(path);
    crate::text::append_chars(&mut joined, &p);
    proof {
        assert(joined@ =~= endpoint(base_url@, path@));
    }
    let address = string_of(&joined);
    match url_parse(address.as_str()) {
        Ok(s) => Ok(s),
        Err(e) => Err(KronoxError::Url(e)),
    }
}

/// Whether an HTTP status is a success (200 to 299), as `StatusCode::is_success`.
pub open spec fn is_success(status: u16) -> bool {
    200 <= status < 300
}

/// Accepts a successful answer; any other status is `KronoxError::Upstream`
/// with that status.
pub fn check_status(status: u16) -> (r: Result<(), KronoxError>)
    ensures
        is_success(status) <==> r is Ok,
        !is_success(status) ==> (r matches Err(KronoxError::Upstream { status: s }) && s == status),
{
    if 200 <= status && status < 300 {
        Ok(())
    } else {
        Err(KronoxError::Upstream { status })
    }
}

} // verus!
