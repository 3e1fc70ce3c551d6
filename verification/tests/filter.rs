use kronox::filter::{apply, distinct_courses, distinct_locations, distinct_teachers, sort_by_start, take_first, Filter};
use kronox::model::{Event, Location, Teacher};

const MIDNIGHT_2026_07_22: i128 = 1_784_678_400;
const SECOND: i128 = 2_000_000_000;

fn at(hour: u32) -> i128 {
    (MIDNIGHT_2026_07_22 + i128::from(hour) * 3600) * SECOND
}

fn event(id: &str, course: &str, start_hour: u32) -> Event {
    Event {
        event_id: id.to_owned(),
        schedule_id: "sched".to_owned(),
        title: "t".to_owned(),
        course_id: course.to_owned(),
        course_name: format!("name-{course}"),
        teachers: vec![Teacher {
            id: "teach1".to_owned(),
            first_name: "a".to_owned(),
            last_name: "b".to_owned(),
        }],
        from: at(start_hour),
        to: at(start_hour + 1),
        locations: vec![Location {
            id: "room1".to_owned(),
            name: "n".to_owned(),
            building: "x".to_owned(),
            floor: "1".to_owned(),
            max_seats: "10".to_owned(),
        }],
        last_modified: at(0),
        is_special: false,
        school_code: "hkr".to_owned(),
        color_hex: "#4A90E2".to_owned(),
    }
}

fn ids(events: &[Event]) -> Vec<String> {
    events.iter().map(|e| e.event_id.clone()).collect()
}

#[test]
fn from_inclusive_to_exclusive() {
    let events = vec![event("a", "c1", 8), event("b", "c1", 10), event("c", "c2", 12)];
    let filter = Filter {
        from: Some(at(10)),
        to: Some(at(12)),
        ..Filter::default()
    };
    let out = apply(events, &filter);
    assert_eq!(out.len(), 1);
    assert_eq!(out[0].event_id, "b");
}

#[test]
fn distinct_dedupes_by_id() {
    let events = vec![event("a", "c1", 8), event("b", "c1", 10)];
    assert_eq!(distinct_courses(&events).len(), 1);
    assert_eq!(distinct_locations(&events).len(), 1);
    assert_eq!(distinct_teachers(&events).len(), 1);
}

#[test]
fn empty_filter_keeps_everything() {
    let events = vec![event("a", "c1", 8), event("b", "c2", 10)];
    let out = apply(events, &Filter::default());
    assert_eq!(ids(&out), vec!["a", "b"]);
}

#[test]
fn filters_combine_with_and() {
    let mut other_room = event("b", "c1", 9);
    other_room.locations[0].id = "room2".to_owned();
    let mut other_teacher = event("c", "c1", 9);
    other_teacher.teachers[0].id = "teach2".to_owned();
    let events = vec![event("a", "c1", 9), other_room, other_teacher, event("d", "c2", 9)];
    let filter = Filter {
        room_id: Some("room1".to_owned()),
        teacher_id: Some("teach1".to_owned()),
        course_id: Some("c1".to_owned()),
        ..Filter::default()
    };
    assert_eq!(ids(&apply(events, &filter)), vec!["a"]);
}

#[test]
fn applying_a_filter_twice_changes_nothing() {
    let filter = Filter {
        course_id: Some("c1".to_owned()),
        from: Some(at(9)),
        ..Filter::default()
    };
    let events = vec![event("a", "c1", 8), event("b", "c1", 10), event("c", "c2", 12)];
    let once = apply(events, &filter);
    let once_ids = ids(&once);
    let twice = apply(once, &filter);
    assert_eq!(once_ids, vec!["b"]);
    assert_eq!(ids(&twice), once_ids);
}

#[test]
fn filters_commute() {
    let by_course = Filter {
        course_id: Some("c1".to_owned()),
        ..Filter::default()
    };
    let by_time = Filter {
        to: Some(at(10)),
        ..Filter::default()
    };
    let make = || vec![event("a", "c1", 8), event("b", "c1", 10), event("c", "c2", 9)];
    let one = apply(apply(make(), &by_course), &by_time);
    let other = apply(apply(make(), &by_time), &by_course);
    assert_eq!(ids(&one), vec!["a"]);
    assert_eq!(ids(&one), ids(&other));
}

#[test]
fn distinct_skips_empty_ids_and_keeps_first_seen_order() {
    let mut no_course = event("z", "", 7);
    no_course.teachers[0].id = String::new();
    no_course.locations[0].id = String::new();
    let mut second = event("b", "c2", 10);
    second.teachers[0].id = "teach2".to_owned();
    second.locations[0].id = "room2".to_owned();
    let events = vec![no_course, event("a", "c1", 8), second, event("c", "c1", 11)];
    let courses: Vec<String> = distinct_courses(&events).into_iter().map(|c| c.course_id).collect();
    assert_eq!(courses, vec!["c1", "c2"]);
    assert_eq!(distinct_courses(&events)[0].course_name, "name-c1");
    let rooms: Vec<String> = distinct_locations(&events).into_iter().map(|l| l.id).collect();
    assert_eq!(rooms, vec!["room1", "room2"]);
    let teachers: Vec<String> = distinct_teachers(&events).into_iter().map(|t| t.id).collect();
    assert_eq!(teachers, vec!["teach1", "teach2"]);
}

#[test]
fn sorts_by_start_keeping_ties_in_order() {
    let events = vec![event("late", "c1", 12), event("tie1", "c1", 9), event("early", "c1", 8), event("tie2", "c2", 9)];
    let sorted = sort_by_start(events);
    assert_eq!(ids(&sorted), vec!["early", "tie1", "tie2", "late"]);
    let again = sort_by_start(sorted);
    assert_eq!(ids(&again), vec!["early", "tie1", "tie2", "late"]);
}

#[test]
fn takes_at_most_n_first_events() {
    let events = vec![event("a", "c1", 8), event("b", "c1", 9), event("c", "c1", 10)];
    assert_eq!(ids(&take_first(events, 2)), vec!["a", "b"]);
    let few = vec![event("a", "c1", 8)];
    assert_eq!(ids(&take_first(few, 5)), vec!["a"]);
}

#[test]
fn a_leap_second_falls_before_the_next_midnight() {
    let leap = kronox::schedule::parse_time("20161231T235960Z").unwrap();
    let midnight = kronox::schedule::parse_time("20170101T000000Z").unwrap();
    let mut at_leap = event("leap", "c1", 0);
    at_leap.from = leap;
    let mut at_midnight = event("midnight", "c1", 0);
    at_midnight.from = midnight;
    let last_year = Filter {
        to: Some(midnight),
        ..Filter::default()
    };
    assert_eq!(ids(&apply(vec![at_midnight, at_leap], &last_year)), vec!["leap"]);
}
