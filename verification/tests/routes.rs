use kronox::error::ApiError;
use kronox::routes::{
    day_window, internal_error, next_limit, not_found, parse, parse_rfc3339, require_school,
    require_search_query, split_schedule_ids, today_window, zone_name, ScheduleQuery, DAY_TICKS,
};
use kronox::schools::{School, SchoolsConfig};

const SECOND: i128 = 2_000_000_000;

fn schools() -> SchoolsConfig {
    let mut config = SchoolsConfig::new();
    config.insert(
        "hkr".to_owned(),
        School {
            id: "hkr".to_owned(),
            name: "Kristianstad".to_owned(),
            domain: "hkr.se".to_owned(),
            urls: vec!["https://schema.hkr.se/".to_owned()],
            logo_url: String::new(),
        },
    );
    config
}

fn bad_request(error: ApiError) -> String {
    match error {
        ApiError::BadRequest(message) => message,
        other => panic!("unexpected {other:?}"),
    }
}

#[test]
fn catchers_answer_fixed_texts() {
    assert_eq!(not_found(), "404 - Not Found");
    assert_eq!(internal_error(), "500 - Internal Server Error");
}

#[test]
fn school_must_be_given_and_known() {
    let config = schools();
    assert_eq!(require_school(&config, Some("hkr")).unwrap(), "hkr");
    assert_eq!(
        bad_request(require_school(&config, None).unwrap_err()),
        "missing required query parameter: school"
    );
    assert_eq!(
        bad_request(require_school(&config, Some("")).unwrap_err()),
        "missing required query parameter: school"
    );
    match require_school(&config, Some("nope")) {
        Err(ApiError::UnknownSchool(allowed)) => assert_eq!(allowed, vec!["hkr"]),
        other => panic!("unexpected {other:?}"),
    }
}

#[test]
fn schedule_ids_are_split_on_commas_and_trimmed() {
    assert_eq!(split_schedule_ids(Some("p.A, p.B ,p.C")).unwrap(), vec!["p.A", "p.B", "p.C"]);
    assert_eq!(split_schedule_ids(Some("a,,b")).unwrap(), vec!["a", "", "b"]);
    assert_eq!(split_schedule_ids(Some(" ")).unwrap(), vec![""]);
    assert_eq!(
        bad_request(split_schedule_ids(Some("")).unwrap_err()),
        "missing required query parameter: schedule_ids"
    );
    assert!(split_schedule_ids(None).is_err());
}

#[test]
fn search_query_must_be_non_empty() {
    assert_eq!(require_search_query(Some("data")).unwrap(), "data");
    assert_eq!(
        bad_request(require_search_query(Some("")).unwrap_err()),
        "missing required query parameter: search_query"
    );
    assert!(require_search_query(None).is_err());
}

#[test]
fn bounds_are_rfc3339() {
    assert_eq!(parse_rfc3339(None, "from").unwrap(), None);
    assert_eq!(
        parse_rfc3339(Some("2026-07-22T10:00:00+02:00"), "from").unwrap(),
        Some(1_784_707_200 * SECOND)
    );
    assert_eq!(
        parse_rfc3339(Some("2026-07-22T08:00:00.5Z"), "to").unwrap(),
        Some(1_784_707_200 * SECOND + 500_000_000)
    );
    assert_eq!(
        bad_request(parse_rfc3339(Some("yesterday"), "to").unwrap_err()),
        "invalid to: expected RFC3339"
    );
}

fn query() -> ScheduleQuery {
    ScheduleQuery {
        schedule_ids: Some("p.A,p.B".to_owned()),
        school: Some("hkr".to_owned()),
        room_id: Some("room1".to_owned()),
        teacher_id: None,
        course_id: Some("c1".to_owned()),
        from: Some("2026-07-22T08:00:00Z".to_owned()),
        to: None,
    }
}

#[test]
fn schedule_query_is_checked_in_order() {
    let input = parse(&schools(), query()).unwrap();
    assert_eq!(input.school, "hkr");
    assert_eq!(input.schedule_ids, vec!["p.A", "p.B"]);
    assert_eq!(input.filter.room_id.as_deref(), Some("room1"));
    assert_eq!(input.filter.teacher_id, None);
    assert_eq!(input.filter.course_id.as_deref(), Some("c1"));
    assert_eq!(input.filter.from, Some(1_784_707_200 * SECOND));
    assert_eq!(input.filter.to, None);

    let mut no_school = query();
    no_school.school = None;
    no_school.schedule_ids = None;
    assert_eq!(
        bad_request(parse(&schools(), no_school).unwrap_err()),
        "missing required query parameter: school"
    );
    let mut no_ids = query();
    no_ids.schedule_ids = None;
    no_ids.from = Some("bad".to_owned());
    assert_eq!(
        bad_request(parse(&schools(), no_ids).unwrap_err()),
        "missing required query parameter: schedule_ids"
    );
    let mut bad_to = query();
    bad_to.to = Some("bad".to_owned());
    assert_eq!(bad_request(parse(&schools(), bad_to).unwrap_err()), "invalid to: expected RFC3339");
}

#[test]
fn next_defaults_to_five_and_caps_at_fifty() {
    assert_eq!(next_limit(None), 5);
    assert_eq!(next_limit(Some(0)), 5);
    assert_eq!(next_limit(Some(1)), 1);
    assert_eq!(next_limit(Some(50)), 50);
    assert_eq!(next_limit(Some(51)), 5);
}

#[test]
fn zone_defaults_to_stockholm() {
    assert_eq!(zone_name(None), "Europe/Stockholm");
    assert_eq!(zone_name(Some("UTC")), "UTC");
}

#[test]
fn day_window_prefers_the_resolved_midnight() {
    assert_eq!(day_window(Some(100), 200), (100 * SECOND, 100 * SECOND + DAY_TICKS));
    assert_eq!(day_window(None, 200), (200 * SECOND, 200 * SECOND + DAY_TICKS));
}

#[test]
fn today_in_stockholm_starts_at_local_midnight() {
    // 2026-07-22T08:00:00Z; Stockholm is at UTC+2 in summer.
    let (start, end) = today_window("Europe/Stockholm", 1_784_707_200).unwrap();
    assert_eq!(start, (1_784_678_400 - 7200) * SECOND);
    assert_eq!(end, start + DAY_TICKS);
    let (utc_start, _) = today_window("UTC", 1_784_707_200).unwrap();
    assert_eq!(utc_start, 1_784_678_400 * SECOND);
}

#[test]
fn unknown_zone_is_a_bad_request() {
    assert_eq!(
        bad_request(today_window("Mars/Olympus", 1_784_707_200).unwrap_err()),
        "invalid tz: Mars/Olympus"
    );
}
