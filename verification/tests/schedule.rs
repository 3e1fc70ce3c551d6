use kronox::schedule::{
    clean_resource_id, course_lookup, location_lookup, match_schedule_id, non_empty_or_unknown,
    parse_schedule_document, parse_time, resolve_resources, teacher_lookup,
};
use kronox::xml::{
    BookedDates, Column, EventPost, ExplanationRow, ExplanationTexts, KronoxScheduleXml,
    ResourceNode, ResourceRow, Row,
};

const SECOND: i128 = 2_000_000_000;

fn node(type_id: &str, id: &str, url_encoded_id: &str) -> ResourceNode {
    ResourceNode {
        type_id: type_id.to_owned(),
        id: id.to_owned(),
        url_encoded_id: url_encoded_id.to_owned(),
    }
}

fn row(columns: &[(&str, &str)]) -> Row {
    Row {
        columns: columns
            .iter()
            .map(|(header, value)| Column {
                header: (*header).to_owned(),
                value: (*value).to_owned(),
            })
            .collect(),
    }
}

fn table(row_type: &str, rows: Vec<Row>) -> ExplanationRow {
    ExplanationRow {
        row_type: row_type.to_owned(),
        rows,
    }
}

fn post(booking_id: &str, start: &str, end: &str, nodes: Vec<ResourceNode>) -> EventPost {
    EventPost {
        moment: "Lecture <b>X</b>".to_owned(),
        booking_id: booking_id.to_owned(),
        booked_dates: BookedDates {
            start_date_time: start.to_owned(),
            end_date_time: end.to_owned(),
        },
        last_modified: "20260701T000000Z".to_owned(),
        resource_row: ResourceRow {
            resource_nodes: nodes,
        },
    }
}

fn explanation_tables() -> Vec<ExplanationRow> {
    vec![
        table(
            "UTB_KURSINSTANS_GRUPPER",
            vec![row(&[("Id", "C1"), ("KursNamn_SV", "Programmering")])],
        ),
        table(
            "RESURSER_SIGNATURER",
            vec![row(&[("Id", "T1"), ("ForNamn", "Anna"), ("EfterNamn", "Svensson")])],
        ),
        table(
            "RESURSER_LOKALER",
            vec![row(&[
                ("Id", "L1"),
                ("Lokalnamn", "Sal 101"),
                ("Hus", "A"),
                ("Vaning", "1"),
                ("Antalplatser", "30"),
            ])],
        ),
    ]
}

fn schedule_document() -> KronoxScheduleXml {
    KronoxScheduleXml {
        posts: vec![post(
            "BK1",
            "20260722T080000Z",
            "20260722T100000Z",
            vec![
                node("UTB_KURSINSTANS_GRUPPER", "C1", "C1"),
                node("RESURSER_SIGNATURER", "T1", "T1"),
                node("RESURSER_LOKALER", "L1", "L1"),
            ],
        )],
        explanation_texts: ExplanationTexts {
            rows: explanation_tables(),
        },
    }
}

#[test]
fn parses_event_joining_explanation_tables() {
    let requested = vec!["p.TEST".to_owned()];
    let events = parse_schedule_document("hkr", &requested, &schedule_document());

    assert_eq!(events.len(), 1);
    let event = &events[0];
    assert_eq!(event.event_id, "BK1");
    assert_eq!(event.title, "Lecture X");
    assert_eq!(event.course_id, "C1");
    assert_eq!(event.course_name, "Programmering");
    // 2026-07-22T08:00:00+00:00
    assert_eq!(event.from, 1_784_707_200 * SECOND);
    assert_eq!(event.teachers.len(), 1);
    assert_eq!(event.teachers[0].last_name, "Svensson");
    assert_eq!(event.locations.len(), 1);
    assert_eq!(event.locations[0].name, "Sal 101");
    assert_eq!(event.school_code, "hkr");
    assert_eq!(event.schedule_id, "p.TEST");
}

#[test]
fn event_fields_take_the_documented_defaults() {
    let requested = vec!["p.TEST".to_owned()];
    let events = parse_schedule_document("hkr", &requested, &schedule_document());
    let event = &events[0];
    assert_eq!(event.to, 1_784_714_400 * SECOND);
    // 2026-07-01T00:00:00Z
    assert_eq!(event.last_modified, 1_782_864_000 * SECOND);
    assert!(!event.is_special);
    assert_eq!(event.color_hex, "#4A90E2");
    assert_eq!(event.teachers[0].first_name, "Anna");
    assert_eq!(event.locations[0].building, "A");
    assert_eq!(event.locations[0].floor, "1");
    assert_eq!(event.locations[0].max_seats, "30");
}

#[test]
fn drops_bookings_whose_times_do_not_parse() {
    let mut document = schedule_document();
    document.posts.push(post("BK2", "not a time", "20260722T100000Z", vec![]));
    document.posts.push(post("BK3", "20260723T080000Z", "20260723T090000Z", vec![]));
    let requested = vec!["p.TEST".to_owned()];
    let events = parse_schedule_document("hkr", &requested, &document);
    let ids: Vec<&str> = events.iter().map(|e| e.event_id.as_str()).collect();
    assert_eq!(ids, vec!["BK1", "BK3"]);
    assert_eq!(events[1].course_id, "N/A");
    assert_eq!(events[1].course_name, "N/A");
    assert!(events[1].teachers.is_empty());
}

#[test]
fn unreadable_last_modified_becomes_the_epoch() {
    let mut document = schedule_document();
    document.posts[0].last_modified = "yesterday".to_owned();
    let events = parse_schedule_document("hkr", &["x".to_owned()], &document);
    assert_eq!(events[0].last_modified, 0);
}

#[test]
fn schedule_id_comes_from_the_class_node_when_it_matches() {
    let mut document = schedule_document();
    document.posts[0]
        .resource_row
        .resource_nodes
        .push(node("UTB_PROGRAMINSTANS_KLASSER", "ignored", "B2"));
    let requested = vec!["p.A1".to_owned(), "p.B2".to_owned()];
    let events = parse_schedule_document("hkr", &requested, &document);
    assert_eq!(events[0].schedule_id, "p.B2");
    let no_ids: Vec<String> = Vec::new();
    let events = parse_schedule_document("hkr", &no_ids, &document);
    assert_eq!(events[0].schedule_id, "");
}

#[test]
fn parses_schedule_timestamps() {
    assert_eq!(parse_time("20260722T080000Z").unwrap(), 1_784_707_200 * SECOND);
    assert_eq!(parse_time("19700101T000000Z").unwrap(), 0);
    // 2016-12-31T23:59:60Z, a leap second, lies between its neighbours.
    let before = parse_time("20161231T235959Z").unwrap();
    let leap = parse_time("20161231T235960Z").unwrap();
    let after = parse_time("20170101T000000Z").unwrap();
    assert_eq!(leap, before + 1_000_000_000);
    assert!(before < leap && leap < after);
    assert_eq!(after, before + SECOND);
    assert!(matches!(parse_time("2026-07-22"), Err(kronox::error::KronoxError::Time(_))));
}

#[test]
fn matches_requested_ids_by_suffix_or_whole() {
    let requested = vec!["p.ABC".to_owned(), "XYZ".to_owned()];
    assert_eq!(match_schedule_id(&requested, &["ABC".to_owned()]), Some("p.ABC".to_owned()));
    assert_eq!(match_schedule_id(&requested, &["XYZ".to_owned()]), Some("XYZ".to_owned()));
    assert_eq!(match_schedule_id(&requested, &["p.ABC".to_owned()]), None);
    assert_eq!(
        match_schedule_id(&requested, &["nope".to_owned(), "XYZ".to_owned(), "ABC".to_owned()]),
        Some("XYZ".to_owned())
    );
}

#[test]
fn cleans_cdata_wrapped_ids() {
    assert_eq!(clean_resource_id("  <![CDATA[ L1 ]]>  "), "L1");
    assert_eq!(clean_resource_id("L2"), "L2");
    assert_eq!(clean_resource_id(" <![CDATA[<![CDATA[L3]]>]]> "), "L3");
}

#[test]
fn empty_values_become_unknown() {
    assert_eq!(non_empty_or_unknown(String::new()), "N/A");
    assert_eq!(non_empty_or_unknown("C1".to_owned()), "C1");
}

#[test]
fn lookups_skip_rows_without_id_and_later_rows_win() {
    let rows = vec![
        table(
            "UTB_KURSINSTANS_GRUPPER",
            vec![
                row(&[("Id", "C1"), ("KursNamn_SV", "Old")]),
                row(&[("Id", " "), ("KursNamn_SV", "No id")]),
                row(&[("Id", "C2")]),
                row(&[("Id", "C1"), ("KursNamn_SV", " New ")]),
            ],
        ),
        table("RESURSER_SIGNATURER", vec![row(&[("Id", "T1")]), row(&[("ForNamn", "x")])]),
        table("RESURSER_LOKALER", vec![row(&[("Id", "L9"), ("Lokalnamn", "Aula")])]),
    ];
    let courses = course_lookup(&rows);
    let course_ids: Vec<&str> = courses.iter().map(|(id, _)| id.as_str()).collect();
    assert_eq!(course_ids, vec!["C1", "C1"]);
    assert_eq!(courses[1].1, "New");
    let teachers = teacher_lookup(&rows);
    assert_eq!(teachers.len(), 1);
    assert_eq!(teachers[0].1.first_name, "");
    let locations = location_lookup(&rows);
    assert_eq!(locations.len(), 1);
    assert_eq!(locations[0].1.name, "Aula");
    assert_eq!(locations[0].1.building, "");

    let p = post(
        "B",
        "20260722T080000Z",
        "20260722T090000Z",
        vec![node("UTB_KURSINSTANS_GRUPPER", "C1", "C1"), node("RESURSER_LOKALER", "L9", "L9")],
    );
    let resources = resolve_resources(&p, &teachers, &locations, &courses);
    assert_eq!(resources.course_id, "C1");
    assert_eq!(resources.course_name, "New");
    assert_eq!(resources.locations.len(), 1);
    assert!(resources.teachers.is_empty());
}
