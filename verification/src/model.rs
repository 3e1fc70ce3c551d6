//! The data model shared by the scraper, the filters and the storage layer.
//!
//! An instant is held as an `i128` that orders instants as chrono's UTC
//! date-times order them, leap seconds included: the whole seconds since the
//! Unix epoch times 2·10⁹, plus the nanoseconds past that second, which are
//! below 10⁹ except within a leap second (23:59:60), where chrono counts them
//! on from 10⁹ up to 2·10⁹ − 1. A whole number of seconds is that number
//! times [`TICKS_PER_SECOND`].
use vstd::prelude::*;

verus! {

/// A teacher as KronoX lists one.
#[derive(Debug)]
pub struct Teacher {
    pub id: String,
    pub first_name: String,
    pub last_name: String,
}

impl Clone for Teacher {
    fn clone(&self) -> (r: Self)
        ensures
            r == *self,
    {
        Teacher {
            id: self.id.clone(),
            first_name: self.first_name.clone(),
            last_name: self.last_name.clone(),
        }
    }
}

/// A room as KronoX lists one.
#[derive(Debug)]
pub struct Location {
    pub id: String,
    pub name: String,
    pub building: String,
    pub floor: String,
    pub max_seats: String,
}

impl Clone for Location {
    fn clone(&self) -> (r: Self)
        ensures
            r == *self,
    {
        Location {
            id: self.id.clone(),
            name: self.name.clone(),
            building: self.building.clone(),
            floor: self.floor.clone(),
            max_seats: self.max_seats.clone(),
        }
    }
}

/// One booked schedule entry.
#[derive(Debug)]
pub struct Event {
    pub event_id: String,
    pub schedule_id: String,
    pub title: String,
    pub course_id: String,
    pub course_name: String,
    pub teachers: Vec<Teacher>,
    /// Start, as an instant (see the module's documentation).
    pub from: i128,
    /// End, as an instant.
    pub to: i128,
    pub locations: Vec<Location>,
    /// Last change, as an instant.
    pub last_modified: i128,
    pub is_special: bool,
    pub school_code: String,
    pub color_hex: String,
}

/// A programme (or other resource) found by the programme search.
#[derive(Debug)]
pub struct Programme {
    pub id: String,
    pub title: String,
    pub subtitle: String,
}

/// A course as the course listing names it.
#[derive(Debug)]
pub struct CourseRef {
    pub course_id: String,
    pub course_name: String,
}

/// A (schedule, school) pair the cache knows about.
#[derive(Debug)]
pub struct ScheduleRef {
    pub schedule_id: String,
    pub school_code: String,
}

/// A teacher, with its strings taken as character sequences.
pub struct TeacherView {
    pub id: Seq<char>,
    pub first_name: Seq<char>,
    pub last_name: Seq<char>,
}

impl View for Teacher {
    type V = TeacherView;

    open spec fn view(&self) -> TeacherView {
        TeacherView { id: self.id@, first_name: self.first_name@, last_name: self.last_name@ }
    }
}

/// A room, with its strings taken as character sequences.
pub struct LocationView {
    pub id: Seq<char>,
    pub name: Seq<char>,
    pub building: Seq<char>,
    pub floor: Seq<char>,
    pub max_seats: Seq<char>,
}

impl View for Location {
    type V = LocationView;

    open spec fn view(&self) -> LocationView {
        LocationView {
            id: self.id@,
            name: self.name@,
            building: self.building@,
            floor: self.floor@,
            max_seats: self.max_seats@,
        }
    }
}

/// An event, with its strings taken as character sequences.
pub struct EventView {
    pub event_id: Seq<char>,
    pub schedule_id: Seq<char>,
    pub title: Seq<char>,
    pub course_id: Seq<char>,
    pub course_name: Seq<char>,
    pub teachers: Seq<TeacherView>,
    pub from: i128,
    pub to: i128,
    pub locations: Seq<LocationView>,
    pub last_modified: i128,
    pub is_special: bool,
    pub school_code: Seq<char>,
    pub color_hex: Seq<char>,
}

/// The views of a sequence of teachers.
pub open spec fn teacher_views(s: Seq<Teacher>) -> Seq<TeacherView> {
    s.map_values(|t: Teacher| t@)
}

/// The views of a sequence of locations.
pub open spec fn location_views(s: Seq<Location>) -> Seq<LocationView> {
    s.map_values(|l: Location| l@)
}

impl View for Event {
    type V = EventView;

    open spec fn view(&self) -> EventView {
        EventView {
            event_id: self.event_id@,
            schedule_id: self.schedule_id@,
            title: self.title@,
            course_id: self.course_id@,
            course_name: self.course_name@,
            teachers: teacher_views(self.teachers@),
            from: self.from,
            to: self.to,
            locations: location_views(self.locations@),
            last_modified: self.last_modified,
            is_special: self.is_special,
            school_code: self.school_code@,
            color_hex: self.color_hex@,
        }
    }
}

/// The views of a sequence of events.
pub open spec fn event_views(s: Seq<Event>) -> Seq<EventView> {
    s.map_values(|e: Event| e@)
}

/// A programme, with its strings taken as character sequences.
pub struct ProgrammeView {
    pub id: Seq<char>,
    pub title: Seq<char>,
    pub subtitle: Seq<char>,
}

impl View for Programme {
    type V = ProgrammeView;

    open spec fn view(&self) -> ProgrammeView {
        ProgrammeView { id: self.id@, title: self.title@, subtitle: self.subtitle@ }
    }
}

/// What one second adds to an instant: room for the nanoseconds of the
/// second and for those of a leap second that follows it.
pub const TICKS_PER_SECOND: i128 = 2_000_000_000i128;

/// The instant `secs` whole seconds after the Unix epoch and `nanos`
/// nanoseconds past them, as chrono gives them (`timestamp`,
/// `timestamp_subsec_nanos`).
pub open spec fn instant_of(secs: i64, nanos: u32) -> int {
    secs * 2_000_000_000 + nanos
}

/// Instants order as chrono orders the date-times they come from: by the
/// whole seconds, then by the nanoseconds past them (leap seconds last).
pub proof fn lemma_instant_order(s1: i64, n1: u32, s2: i64, n2: u32)
    requires
        n1 < 2_000_000_000,
        n2 < 2_000_000_000,
    ensures
        instant_of(s1, n1) < instant_of(s2, n2) <==> (s1 < s2 || (s1 == s2 && n1 < n2)),
        instant_of(s1, n1) == instant_of(s2, n2) <==> (s1 == s2 && n1 == n2),
{
    if s1 < s2 {
        assert(s1 * 2_000_000_000 + 2_000_000_000 <= s2 * 2_000_000_000) by (nonlinear_arith)
            requires
                s1 < s2,
        ;
    } else if s1 > s2 {
        assert(s2 * 2_000_000_000 + 2_000_000_000 <= s1 * 2_000_000_000) by (nonlinear_arith)
            requires
                s2 < s1,
        ;
    }
}

/// The instant `secs` whole seconds after the Unix epoch and `nanos`
/// nanoseconds past them.
pub fn instant(secs: i64, nanos: u32) -> (r: i128)
    ensures
        r == instant_of(secs, nanos),
{
    (secs as i128) * TICKS_PER_SECOND + (nanos as i128)
}

} // verus!
