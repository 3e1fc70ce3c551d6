//! In-memory filtering and projection of events, shared by the schedule
//! endpoints.
use vstd::prelude::*;

use crate::model::{CourseRef, Event, Location, Teacher};

verus! {

/// Conditions an event must meet; all present conditions must hold.
#[derive(Debug)]
pub struct Filter {
    pub room_id: Option<String>,
    pub teacher_id: Option<String>,
    pub course_id: Option<String>,
    /// Inclusive lower bound on the event start, as an instant.
    pub from: Option<i128>,
    /// Exclusive upper bound on the event start, as an instant.
    pub to: Option<i128>,
}

impl Filter {
    /// The filter without conditions.
    pub open spec fn spec_empty() -> Filter {
        Filter { room_id: None, teacher_id: None, course_id: None, from: None, to: None }
    }
}

impl Default for Filter {
    fn default() -> (r: Self)
        ensures
            r == Filter::spec_empty(),
    {
        Filter { room_id: None, teacher_id: None, course_id: None, from: None, to: None }
    }
}

/// Whether some location of `e` has the id `id`.
pub open spec fn has_room(e: Event, id: Seq<char>) -> bool {
    exists|i: int| 0 <= i < e.locations@.len() && #[trigger] e.locations@[i].id@ == id
}

/// Whether some teacher of `e` has the id `id`.
pub open spec fn has_teacher(e: Event, id: Seq<char>) -> bool {
    exists|i: int| 0 <= i < e.teachers@.len() && #[trigger] e.teachers@[i].id@ == id
}

/// Whether `e` meets every condition of `f`: the room, the teacher and the
/// course match, and the start lies in `[from, to)`.
pub open spec fn event_matches(e: Event, f: Filter) -> bool {
    &&& (f.room_id matches Some(r) ==> has_room(e, r@))
    &&& (f.teacher_id matches Some(t) ==> has_teacher(e, t@))
    &&& (f.course_id matches Some(c) ==> e.course_id@ == c@)
    &&& (f.from matches Some(from) ==> from <= e.from)
    &&& (f.to matches Some(to) ==> e.from < to)
}

/// The events of `s` that meet `f`, in order.
pub open spec fn filtered(s: Seq<Event>, f: Filter) -> Seq<Event> {
    s.filter(|e: Event| event_matches(e, f))
}

fn room_matches(e: &Event, id: &String) -> (r: bool)
    ensures
        r == has_room(*e, id@),
{
    let mut i: usize = 0;
    while i < e.locations.len()
        invariant
            i <= e.locations.len(),
            forall|k: int| 0 <= k < i ==> e.locations@[k].id@ != id@,
        decreases e.locations.len() - i,
    {
        if e.locations[i].id == *id {
            return true;
        }
        i = i + 1;
    }
    false
}

fn teacher_matches(e: &Event, id: &String) -> (r: bool)
    ensures
        r == has_teacher(*e, id@),
{
    let mut i: usize = 0;
    while i < e.teachers.len()
        invariant
            i <= e.teachers.len(),
            forall|k: int| 0 <= k < i ==> e.teachers@[k].id@ != id@,
        decreases e.teachers.len() - i,
    {
        if e.teachers[i].id == *id {
            return true;
        }
        i = i + 1;
    }
    false
}

/// Whether `event` meets every condition of `filter`.
pub fn matches(event: &Event, filter: &Filter) -> (r: bool)
    ensures
        r == event_matches(*event, *filter),
{
    if let Some(room_id) = &filter.room_id {
        if !room_matches(event, room_id) {
            return false;
        }
    }
    if let Some(teacher_id) = &filter.teacher_id {
        if !teacher_matches(event, teacher_id) {
            return false;
        }
    }
    if let Some(course_id) = &filter.course_id {
        if event.course_id != *course_id {
            return false;
        }
    }
    if let Some(from) = filter.from {
        if event.from < from {
            return false;
        }
    }
    if let Some(to) = filter.to {
        if event.from >= to {
            return false;
        }
    }
    true
}

/// The events that meet `filter`, in the order given.
pub fn apply(events: Vec<Event>, filter: &Filter) -> (r: Vec<Event>)
    ensures
        r@ == filtered(events@, *filter),
{
    let ghost all = events@;
    let mut r: Vec<Event> = Vec::new();
    for event in it: events.into_iter()
        invariant
            it.seq() == all,
            it.index() <= all.len(),
            r@ == filtered(all.take(it.index() as int), *filter),
            it.index() == all.len() ==> r@ == filtered(all, *filter),
    {
        proof {
            reveal(Seq::filter);
            assert(all.take(it.index() + 1).drop_last() =~= all.take(it.index() as int));
            assert(all.take(it.index() + 1).last() == event);
            if it.index() + 1 == all.len() {
                assert(all.take(it.index() + 1) =~= all);
            }
        }
        if matches(&event, filter) {
            r.push(event);
        }
    }
    proof {
        if all.len() == 0 {
            reveal(Seq::filter);
            assert(all.take(0) =~= all);
        }
    }
    r
}

proof fn lemma_filter_twice(s: Seq<Event>, f: Filter, g: Filter)
    ensures
        filtered(filtered(s, f), g) == s.filter(
            |e: Event| event_matches(e, f) && event_matches(e, g),
        ),
    decreases s.len(),
{
    reveal(Seq::filter);
    if s.len() > 0 {
        lemma_filter_twice(s.drop_last(), f, g);
        let pf = |e: Event| event_matches(e, f);
        if pf(s.last()) {
            assert(filtered(s, f).drop_last() =~= filtered(s.drop_last(), f));
        }
    }
}

/// Filtering a second time with the same filter changes nothing.
pub proof fn lemma_apply_idempotent(events: Seq<Event>, f: Filter)
    ensures
        filtered(filtered(events, f), f) == filtered(events, f),
{
    lemma_filter_twice(events, f, f);
    let both = |e: Event| event_matches(e, f) && event_matches(e, f);
    let one = |e: Event| event_matches(e, f);
    assert(both =~= one);
}

/// Conditions combine by conjunction: applying two filters one after the
/// other gives the same events in either order.
pub proof fn lemma_apply_commutes(events: Seq<Event>, f: Filter, g: Filter)
    ensures
        filtered(filtered(events, f), g) == filtered(filtered(events, g), f),
{
    lemma_filter_twice(events, f, g);
    lemma_filter_twice(events, g, f);
    let fg = |e: Event| event_matches(e, f) && event_matches(e, g);
    let gf = |e: Event| event_matches(e, g) && event_matches(e, f);
    assert(fg =~= gf);
}

proof fn lemma_filter_all(s: Seq<Event>, f: Filter)
    requires
        forall|i: int| 0 <= i < s.len() ==> event_matches(#[trigger] s[i], f),
    ensures
        filtered(s, f) == s,
    decreases s.len(),
{
    reveal(Seq::filter);
    if s.len() > 0 {
        lemma_filter_all(s.drop_last(), f);
        assert(s.drop_last().push(s.last()) =~= s);
    }
}

/// The filter without conditions keeps every event.
pub proof fn lemma_apply_empty_filter(events: Seq<Event>)
    ensures
        filtered(events, Filter::spec_empty()) == events,
{
    lemma_filter_all(events, Filter::spec_empty());
}

/// Whether some location of `s` has the id `id`.
pub open spec fn has_location_id(s: Seq<Location>, id: Seq<char>) -> bool {
    exists|i: int| 0 <= i < s.len() && #[trigger] s[i].id@ == id
}

/// Whether some teacher of `s` has the id `id`.
pub open spec fn has_teacher_id(s: Seq<Teacher>, id: Seq<char>) -> bool {
    exists|i: int| 0 <= i < s.len() && #[trigger] s[i].id@ == id
}

/// Whether some course of `s` has the id `id`.
pub open spec fn has_course_id(s: Seq<CourseRef>, id: Seq<char>) -> bool {
    exists|i: int| 0 <= i < s.len() && #[trigger] s[i].course_id@ == id
}

/// The locations of all events, in order.
pub open spec fn all_locations(events: Seq<Event>) -> Seq<Location>
    decreases events.len(),
{
    if events.len() == 0 {
        Seq::<Location>::empty()
    } else {
        all_locations(events.drop_last()) + events.last().locations@
    }
}

/// The teachers of all events, in order.
pub open spec fn all_teachers(events: Seq<Event>) -> Seq<Teacher>
    decreases events.len(),
{
    if events.len() == 0 {
        Seq::<Teacher>::empty()
    } else {
        all_teachers(events.drop_last()) + events.last().teachers@
    }
}

/// The first location with each non-empty id, in order of first appearance.
pub open spec fn unique_locations(s: Seq<Location>) -> Seq<Location>
    decreases s.len(),
{
    if s.len() == 0 {
        Seq::<Location>::empty()
    } else {
        let d = unique_locations(s.drop_last());
        if s.last().id@.len() == 0 || has_location_id(d, s.last().id@) {
            d
        } else {
            d.push(s.last())
        }
    }
}

/// The first teacher with each non-empty id, in order of first appearance.
pub open spec fn unique_teachers(s: Seq<Teacher>) -> Seq<Teacher>
    decreases s.len(),
{
    if s.len() == 0 {
        Seq::<Teacher>::empty()
    } else {
        let d = unique_teachers(s.drop_last());
        if s.last().id@.len() == 0 || has_teacher_id(d, s.last().id@) {
            d
        } else {
            d.push(s.last())
        }
    }
}

/// The course of the first event with each non-empty course id, in order.
pub open spec fn unique_courses(events: Seq<Event>) -> Seq<CourseRef>
    decreases events.len(),
{
    if events.len() == 0 {
        Seq::<CourseRef>::empty()
    } else {
        let d = unique_courses(events.drop_last());
        let e = events.last();
        if e.course_id@.len() == 0 || has_course_id(d, e.course_id@) {
            d
        } else {
            d.push(CourseRef { course_id: e.course_id, course_name: e.course_name })
        }
    }
}

fn contains_location_id(s: &Vec<Location>, id: &String) -> (r: bool)
    ensures
        r == has_location_id(s@, id@),
{
    let mut i: usize = 0;
    while i < s.len()
        invariant
            i <= s.len(),
            forall|k: int| 0 <= k < i ==> s@[k].id@ != id@,
        decreases s.len() - i,
    {
        if s[i].id == *id {
            return true;
        }
        i = i + 1;
    }
    false
}

fn contains_teacher_id(s: &Vec<Teacher>, id: &String) -> (r: bool)
    ensures
        r == has_teacher_id(s@, id@),
{
    let mut i: usize = 0;
    while i < s.len()
        invariant
            i <= s.len(),
            forall|k: int| 0 <= k < i ==> s@[k].id@ != id@,
        decreases s.len() - i,
    {
        if s[i].id == *id {
            return true;
        }
        i = i + 1;
    }
    false
}

fn contains_course_id(s: &Vec<CourseRef>, id: &String) -> (r: bool)
    ensures
        r == has_course_id(s@, id@),
{
    let mut i: usize = 0;
    while i < s.len()
        invariant
            i <= s.len(),
            forall|k: int| 0 <= k < i ==> s@[k].course_id@ != id@,
        decreases s.len() - i,
    {
        if s[i].course_id == *id {
            return true;
        }
        i = i + 1;
    }
    false
}

/// Every location with a non-empty id once, the first of each id, in order of
/// first appearance across the events.
pub fn distinct_locations(events: &[Event]) -> (r: Vec<Location>)
    ensures
        r@ == unique_locations(all_locations(events@)),
{
    let mut r: Vec<Location> = Vec::new();
    let mut i: usize = 0;
    proof {
        assert(events@.take(0) =~= Seq::<Event>::empty());
    }
    while i < events.len()
        invariant
            i <= events.len(),
            r@ == unique_locations(all_locations(events@.take(i as int))),
        decreases events.len() - i,
    {
        let locations = &events[i].locations;
        let ghost prefix = all_locations(events@.take(i as int));
        let mut j: usize = 0;
        proof {
            assert(prefix + locations@.take(0) =~= prefix);
        }
        while j < locations.len()
            invariant
                i < events.len(),
                locations == &events@[i as int].locations,
                prefix == all_locations(events@.take(i as int)),
                j <= locations.len(),
                r@ == unique_locations(prefix + locations@.take(j as int)),
            decreases locations.len() - j,
        {
            let location = &locations[j];
            proof {
                assert((prefix + locations@.take(j + 1)).drop_last() =~= prefix + locations@.take(
                    j as int,
                ));
                assert((prefix + locations@.take(j + 1)).last() == locations@[j as int]);
            }
            if !location.id.as_str().is_empty() && !contains_location_id(&r, &location.id) {
                r.push(location.clone());
            }
            j = j + 1;
        }
        proof {
            assert(locations@.take(locations.len() as int) =~= locations@);
            assert(events@.take(i + 1).drop_last() =~= events@.take(i as int));
            assert(events@.take(i + 1).last() == events@[i as int]);
        }
        i = i + 1;
    }
    proof {
        assert(events@.take(events.len() as int) =~= events@);
    }
    r
}

/// Every teacher with a non-empty id once, the first of each id, in order of
/// first appearance across the events.
pub fn distinct_teachers(events: &[Event]) -> (r: Vec<Teacher>)
    ensures
        r@ == unique_teachers(all_teachers(events@)),
{
    let mut r: Vec<Teacher> = Vec::new();
    let mut i: usize = 0;
    proof {
        assert(events@.take(0) =~= Seq::<Event>::empty());
    }
    while i < events.len()
        invariant
            i <= events.len(),
            r@ == unique_teachers(all_teachers(events@.take(i as int))),
        decreases events.len() - i,
    {
        let teachers = &events[i].teachers;
        let ghost prefix = all_teachers(events@.take(i as int));
        let mut j: usize = 0;
        proof {
            assert(prefix + teachers@.take(0) =~= prefix);
        }
        while j < teachers.len()
            invariant
                i < events.len(),
                teachers == &events@[i as int].teachers,
                prefix == all_teachers(events@.take(i as int)),
                j <= teachers.len(),
                r@ == unique_teachers(prefix + teachers@.take(j as int)),
            decreases teachers.len() - j,
        {
            let teacher = &teachers[j];
            proof {
                assert((prefix + teachers@.take(j + 1)).drop_last() =~= prefix + teachers@.take(
                    j as int,
                ));
                assert((prefix + teachers@.take(j + 1)).last() == teachers@[j as int]);
            }
            if !teacher.id.as_str().is_empty() && !contains_teacher_id(&r, &teacher.id) {
                r.push(teacher.clone());
            }
            j = j + 1;
        }
        proof {
            assert(teachers@.take(teachers.len() as int) =~= teachers@);
            assert(events@.take(i + 1).drop_last() =~= events@.take(i as int));
            assert(events@.take(i + 1).last() == events@[i as int]);
        }
        i = i + 1;
    }
    proof {
        assert(events@.take(events.len() as int) =~= events@);
    }
    r
}

/// Every non-empty course id once, with the course name of its first event,
/// in order of first appearance.
pub fn distinct_courses(events: &[Event]) -> (r: Vec<CourseRef>)
    ensures
        r@ == unique_courses(events@),
{
    let mut r: Vec<CourseRef> = Vec::new();
    let mut i: usize = 0;
    proof {
        assert(events@.take(0) =~= Seq::<Event>::empty());
    }
    while i < events.len()
        invariant
            i <= events.len(),
            r@ == unique_courses(events@.take(i as int)),
        decreases events.len() - i,
    {
        let event = &events[i];
        proof {
            assert(events@.take(i + 1).drop_last() =~= events@.take(i as int));
            assert(events@.take(i + 1).last() == events@[i as int]);
        }
        if !event.course_id.as_str().is_empty() && !contains_course_id(&r, &event.course_id) {
            r.push(
                CourseRef { course_id: event.course_id.clone(), course_name: event.course_name.clone() },
            );
        }
        i = i + 1;
    }
    proof {
        assert(events@.take(events.len() as int) =~= events@);
    }
    r
}

proof fn lemma_unique_locations(s: Seq<Location>)
    ensures
        forall|i: int, j: int|
            0 <= i < j < unique_locations(s).len() ==> #[trigger] unique_locations(s)[i].id@
                != #[trigger] unique_locations(s)[j].id@,
        forall|i: int| 0 <= i < unique_locations(s).len() ==> (#[trigger] unique_locations(s)[i]).id@.len() > 0,
        forall|k: int|
            0 <= k < s.len() && (#[trigger] s[k]).id@.len() > 0 ==> has_location_id(
                unique_locations(s),
                s[k].id@,
            ),
    decreases s.len(),
{
    if s.len() > 0 {
        let d = unique_locations(s.drop_last());
        lemma_unique_locations(s.drop_last());
        let u = unique_locations(s);
        assert forall|k: int| 0 <= k < s.len() && (#[trigger] s[k]).id@.len() > 0 implies has_location_id(
            u,
            s[k].id@,
        ) by {
            if k < s.len() - 1 {
                assert(s.drop_last()[k] == s[k]);
                let w = choose|w: int| 0 <= w < d.len() && #[trigger] d[w].id@ == s[k].id@;
                assert(u[w] == d[w]);
            } else if !has_location_id(d, s.last().id@) {
                assert(u[d.len() as int] == s.last());
            } else {
                let w = choose|w: int| 0 <= w < d.len() && #[trigger] d[w].id@ == s.last().id@;
                assert(u[w] == d[w]);
            }
        }
    }
}

proof fn lemma_unique_teachers(s: Seq<Teacher>)
    ensures
        forall|i: int, j: int|
            0 <= i < j < unique_teachers(s).len() ==> #[trigger] unique_teachers(s)[i].id@
                != #[trigger] unique_teachers(s)[j].id@,
        forall|i: int| 0 <= i < unique_teachers(s).len() ==> (#[trigger] unique_teachers(s)[i]).id@.len() > 0,
        forall|k: int|
            0 <= k < s.len() && (#[trigger] s[k]).id@.len() > 0 ==> has_teacher_id(
                unique_teachers(s),
                s[k].id@,
            ),
    decreases s.len(),
{
    if s.len() > 0 {
        let d = unique_teachers(s.drop_last());
        lemma_unique_teachers(s.drop_last());
        let u = unique_teachers(s);
        assert forall|k: int| 0 <= k < s.len() && (#[trigger] s[k]).id@.len() > 0 implies has_teacher_id(
            u,
            s[k].id@,
        ) by {
            if k < s.len() - 1 {
                assert(s.drop_last()[k] == s[k]);
                let w = choose|w: int| 0 <= w < d.len() && #[trigger] d[w].id@ == s[k].id@;
                assert(u[w] == d[w]);
            } else if !has_teacher_id(d, s.last().id@) {
                assert(u[d.len() as int] == s.last());
            } else {
                let w = choose|w: int| 0 <= w < d.len() && #[trigger] d[w].id@ == s.last().id@;
                assert(u[w] == d[w]);
            }
        }
    }
}

proof fn lemma_unique_courses(events: Seq<Event>)
    ensures
        forall|i: int, j: int|
            0 <= i < j < unique_courses(events).len() ==> #[trigger] unique_courses(events)[i].course_id@
                != #[trigger] unique_courses(events)[j].course_id@,
        forall|i: int|
            0 <= i < unique_courses(events).len() ==> (#[trigger] unique_courses(events)[i]).course_id@.len()
                > 0,
        forall|k: int|
            0 <= k < events.len() && (#[trigger] events[k]).course_id@.len() > 0 ==> has_course_id(
                unique_courses(events),
                events[k].course_id@,
            ),
    decreases events.len(),
{
    if events.len() > 0 {
        let d = unique_courses(events.drop_last());
        lemma_unique_courses(events.drop_last());
        let u = unique_courses(events);
        assert forall|k: int| 0 <= k < events.len() && (#[trigger] events[k]).course_id@.len() > 0 implies has_course_id(
            u,
            events[k].course_id@,
        ) by {
            if k < events.len() - 1 {
                assert(events.drop_last()[k] == events[k]);
                let w = choose|w: int| 0 <= w < d.len() && #[trigger] d[w].course_id@ == events[k].course_id@;
                assert(u[w] == d[w]);
            } else if !has_course_id(d, events.last().course_id@) {
                assert(u[d.len() as int].course_id == events.last().course_id);
            } else {
                let w = choose|w: int| 0 <= w < d.len() && #[trigger] d[w].course_id@ == events.last().course_id@;
                assert(u[w] == d[w]);
            }
        }
    }
}

/// The room, teacher and course listings name each id once, never an empty
/// id, and every non-empty id that occurs in the events.
pub proof fn lemma_distinct_listings(events: Seq<Event>)
    ensures
        forall|i: int, j: int|
            0 <= i < j < unique_locations(all_locations(events)).len() ==> #[trigger] unique_locations(
                all_locations(events),
            )[i].id@ != #[trigger] unique_locations(all_locations(events))[j].id@,
        forall|i: int|
            0 <= i < unique_locations(all_locations(events)).len() ==> (#[trigger] unique_locations(
                all_locations(events),
            )[i]).id@.len() > 0,
        forall|k: int|
            0 <= k < all_locations(events).len() && (#[trigger] all_locations(events)[k]).id@.len()
                > 0 ==> has_location_id(unique_locations(all_locations(events)), all_locations(events)[k].id@),
        forall|i: int, j: int|
            0 <= i < j < unique_teachers(all_teachers(events)).len() ==> #[trigger] unique_teachers(
                all_teachers(events),
            )[i].id@ != #[trigger] unique_teachers(all_teachers(events))[j].id@,
        forall|i: int|
            0 <= i < unique_teachers(all_teachers(events)).len() ==> (#[trigger] unique_teachers(
                all_teachers(events),
            )[i]).id@.len() > 0,
        forall|k: int|
            0 <= k < all_teachers(events).len() && (#[trigger] all_teachers(events)[k]).id@.len()
                > 0 ==> has_teacher_id(unique_teachers(all_teachers(events)), all_teachers(events)[k].id@),
        forall|i: int, j: int|
            0 <= i < j < unique_courses(events).len() ==> #[trigger] unique_courses(events)[i].course_id@
                != #[trigger] unique_courses(events)[j].course_id@,
        forall|i: int|
            0 <= i < unique_courses(events).len() ==> (#[trigger] unique_courses(events)[i]).course_id@.len()
                > 0,
        forall|k: int|
            0 <= k < events.len() && (#[trigger] events[k]).course_id@.len() > 0 ==> has_course_id(
                unique_courses(events),
                events[k].course_id@,
            ),
{
    lemma_unique_locations(all_locations(events));
    lemma_unique_teachers(all_teachers(events));
    lemma_unique_courses(events);
}

/// The room condition is met exactly when some location of the event, at any
/// index, has the room id asked for; the teacher condition exactly when some
/// teacher of the event has the teacher id asked for. The other conditions
/// are unaffected.
pub proof fn lemma_room_and_teacher_conditions(e: Event, f: Filter)
    ensures
        match f.room_id {
            Some(r) => event_matches(e, f) == ((exists|i: int|
                0 <= i < e.locations@.len() && #[trigger] e.locations@[i].id@ == r@) && event_matches(
                e,
                Filter { room_id: None, ..f },
            )),
            None => true,
        },
        match f.teacher_id {
            Some(t) => event_matches(e, f) == ((exists|i: int|
                0 <= i < e.teachers@.len() && #[trigger] e.teachers@[i].id@ == t@) && event_matches(
                e,
                Filter { teacher_id: None, ..f },
            )),
            None => true,
        },
{
}

proof fn lemma_location_at(events: Seq<Event>, k: int, j: int) -> (m: int)
    requires
        0 <= k < events.len(),
        0 <= j < events[k].locations@.len(),
    ensures
        0 <= m < all_locations(events).len(),
        all_locations(events)[m] == events[k].locations@[j],
    decreases events.len(),
{
    let init = events.drop_last();
    let p = all_locations(init);
    assert(all_locations(events) == p + events.last().locations@);
    if k < events.len() - 1 {
        assert(init[k] == events[k]);
        let m = lemma_location_at(init, k, j);
        assert(all_locations(events)[m] == p[m]);
        m
    } else {
        assert(events[k] == events.last());
        assert(all_locations(events)[p.len() + j] == events.last().locations@[j]);
        p.len() + j
    }
}

proof fn lemma_location_source(events: Seq<Event>, m: int) -> (kj: (int, int))
    requires
        0 <= m < all_locations(events).len(),
    ensures
        0 <= kj.0 < events.len(),
        0 <= kj.1 < events[kj.0].locations@.len(),
        all_locations(events)[m] == events[kj.0].locations@[kj.1],
    decreases events.len(),
{
    let init = events.drop_last();
    let p = all_locations(init);
    assert(all_locations(events) == p + events.last().locations@);
    if m < p.len() {
        let kj = lemma_location_source(init, m);
        assert(init[kj.0] == events[kj.0]);
        assert(all_locations(events)[m] == p[m]);
        kj
    } else {
        let k = events.len() - 1;
        assert(events[k] == events.last());
        assert(all_locations(events)[m] == events.last().locations@[m - p.len()]);
        (k, m - p.len())
    }
}

proof fn lemma_teacher_at(events: Seq<Event>, k: int, j: int) -> (m: int)
    requires
        0 <= k < events.len(),
        0 <= j < events[k].teachers@.len(),
    ensures
        0 <= m < all_teachers(events).len(),
        all_teachers(events)[m] == events[k].teachers@[j],
    decreases events.len(),
{
    let init = events.drop_last();
    let p = all_teachers(init);
    assert(all_teachers(events) == p + events.last().teachers@);
    if k < events.len() - 1 {
        assert(init[k] == events[k]);
        let m = lemma_teacher_at(init, k, j);
        assert(all_teachers(events)[m] == p[m]);
        m
    } else {
        assert(events[k] == events.last());
        assert(all_teachers(events)[p.len() + j] == events.last().teachers@[j]);
        p.len() + j
    }
}

proof fn lemma_teacher_source(events: Seq<Event>, m: int) -> (kj: (int, int))
    requires
        0 <= m < all_teachers(events).len(),
    ensures
        0 <= kj.0 < events.len(),
        0 <= kj.1 < events[kj.0].teachers@.len(),
        all_teachers(events)[m] == events[kj.0].teachers@[kj.1],
    decreases events.len(),
{
    let init = events.drop_last();
    let p = all_teachers(init);
    assert(all_teachers(events) == p + events.last().teachers@);
    if m < p.len() {
        let kj = lemma_teacher_source(init, m);
        assert(init[kj.0] == events[kj.0]);
        assert(all_teachers(events)[m] == p[m]);
        kj
    } else {
        let k = events.len() - 1;
        assert(events[k] == events.last());
        assert(all_teachers(events)[m] == events.last().teachers@[m - p.len()]);
        (k, m - p.len())
    }
}

proof fn lemma_unique_location_source(s: Seq<Location>, i: int) -> (m: int)
    requires
        0 <= i < unique_locations(s).len(),
    ensures
        0 <= m < s.len(),
        unique_locations(s)[i] == s[m],
    decreases s.len(),
{
    let d = unique_locations(s.drop_last());
    if i < d.len() {
        let m = lemma_unique_location_source(s.drop_last(), i);
        assert(unique_locations(s)[i] == d[i]);
        m
    } else {
        s.len() - 1
    }
}

proof fn lemma_unique_teacher_source(s: Seq<Teacher>, i: int) -> (m: int)
    requires
        0 <= i < unique_teachers(s).len(),
    ensures
        0 <= m < s.len(),
        unique_teachers(s)[i] == s[m],
    decreases s.len(),
{
    let d = unique_teachers(s.drop_last());
    if i < d.len() {
        let m = lemma_unique_teacher_source(s.drop_last(), i);
        assert(unique_teachers(s)[i] == d[i]);
        m
    } else {
        s.len() - 1
    }
}

/// The room listing of `distinct_locations` names every non-empty room id of
/// every location of every event, and lists only locations of the events;
/// the teacher listing of `distinct_teachers` likewise for teachers.
pub proof fn lemma_listings_cover_events(events: Seq<Event>)
    ensures
        forall|k: int, j: int|
            0 <= k < events.len() && 0 <= j < events[k].locations@.len() && (
            #[trigger] events[k].locations@[j]).id@.len() > 0 ==> exists|i: int|
                0 <= i < unique_locations(all_locations(events)).len() && (
                #[trigger] unique_locations(all_locations(events))[i]).id@
                    == events[k].locations@[j].id@,
        forall|i: int|
            0 <= i < unique_locations(all_locations(events)).len() ==> exists|k: int, j: int|
                0 <= k < events.len() && 0 <= j < events[k].locations@.len() && #[trigger] unique_locations(
                    all_locations(events),
                )[i] == #[trigger] events[k].locations@[j],
        forall|k: int, j: int|
            0 <= k < events.len() && 0 <= j < events[k].teachers@.len() && (
            #[trigger] events[k].teachers@[j]).id@.len() > 0 ==> exists|i: int|
                0 <= i < unique_teachers(all_teachers(events)).len() && (
                #[trigger] unique_teachers(all_teachers(events))[i]).id@
                    == events[k].teachers@[j].id@,
        forall|i: int|
            0 <= i < unique_teachers(all_teachers(events)).len() ==> exists|k: int, j: int|
                0 <= k < events.len() && 0 <= j < events[k].teachers@.len() && #[trigger] unique_teachers(
                    all_teachers(events),
                )[i] == #[trigger] events[k].teachers@[j],
{
    let al = all_locations(events);
    let at = all_teachers(events);
    lemma_unique_locations(al);
    lemma_unique_teachers(at);
    assert forall|k: int, j: int|
        0 <= k < events.len() && 0 <= j < events[k].locations@.len() && (
        #[trigger] events[k].locations@[j]).id@.len() > 0 implies exists|i: int|
            0 <= i < unique_locations(al).len() && (#[trigger] unique_locations(al)[i]).id@
                == events[k].locations@[j].id@ by {
        let m = lemma_location_at(events, k, j);
        assert(al[m].id@.len() > 0);
        assert(has_location_id(unique_locations(al), al[m].id@));
        let i = choose|i: int| 0 <= i < unique_locations(al).len() && #[trigger] unique_locations(al)[i].id@ == al[m].id@;
        assert(0 <= i < unique_locations(al).len() && unique_locations(al)[i].id@ == events[k].locations@[j].id@);
    }
    assert forall|i: int| 0 <= i < unique_locations(al).len() implies exists|k: int, j: int|
        0 <= k < events.len() && 0 <= j < events[k].locations@.len() && #[trigger] unique_locations(
            al,
        )[i] == #[trigger] events[k].locations@[j] by {
        let m = lemma_unique_location_source(al, i);
        let kj = lemma_location_source(events, m);
        assert(0 <= kj.0 < events.len() && 0 <= kj.1 < events[kj.0].locations@.len()
            && unique_locations(al)[i] == events[kj.0].locations@[kj.1]);
    }
    assert forall|k: int, j: int|
        0 <= k < events.len() && 0 <= j < events[k].teachers@.len() && (
        #[trigger] events[k].teachers@[j]).id@.len() > 0 implies exists|i: int|
            0 <= i < unique_teachers(at).len() && (#[trigger] unique_teachers(at)[i]).id@
                == events[k].teachers@[j].id@ by {
        let m = lemma_teacher_at(events, k, j);
        assert(at[m].id@.len() > 0);
        assert(has_teacher_id(unique_teachers(at), at[m].id@));
        let i = choose|i: int| 0 <= i < unique_teachers(at).len() && #[trigger] unique_teachers(at)[i].id@ == at[m].id@;
        assert(0 <= i < unique_teachers(at).len() && unique_teachers(at)[i].id@ == events[k].teachers@[j].id@);
    }
    assert forall|i: int| 0 <= i < unique_teachers(at).len() implies exists|k: int, j: int|
        0 <= k < events.len() && 0 <= j < events[k].teachers@.len() && #[trigger] unique_teachers(
            at,
        )[i] == #[trigger] events[k].teachers@[j] by {
        let m = lemma_unique_teacher_source(at, i);
        let kj = lemma_teacher_source(events, m);
        assert(0 <= kj.0 < events.len() && 0 <= kj.1 < events[kj.0].teachers@.len()
            && unique_teachers(at)[i] == events[kj.0].teachers@[kj.1]);
    }
}

/// Whether the events are in order of start.
pub open spec fn sorted_by_start(s: Seq<Event>) -> bool {
    forall|i: int, j: int| 0 <= i <= j < s.len() ==> s[i].from <= s[j].from
}

/// The events of `s` that start at `t`, in order.
pub open spec fn starting_at(s: Seq<Event>, t: i128) -> Seq<Event> {
    s.filter(|e: Event| e.from == t)
}

proof fn lemma_starting_at_none(s: Seq<Event>, t: i128)
    requires
        forall|i: int| 0 <= i < s.len() ==> (#[trigger] s[i]).from != t,
    ensures
        starting_at(s, t) == Seq::<Event>::empty(),
    decreases s.len(),
{
    reveal(Seq::filter);
    if s.len() > 0 {
        lemma_starting_at_none(s.drop_last(), t);
    }
}

proof fn lemma_starting_at_insert(r: Seq<Event>, p: int, e: Event, t: i128)
    requires
        0 <= p <= r.len(),
        forall|k: int| p <= k < r.len() ==> (#[trigger] r[k]).from > e.from,
    ensures
        starting_at(r.insert(p, e), t) == if t == e.from {
            starting_at(r, t).push(e)
        } else {
            starting_at(r, t)
        },
{
    reveal(Seq::filter);
    let pred = |x: Event| x.from == t;
    let a = r.take(p);
    let b = r.skip(p);
    assert(r =~= a + b);
    assert(r.insert(p, e) =~= a + seq![e] + b);
    Seq::filter_distributes_over_add(a, b, pred);
    Seq::filter_distributes_over_add(a + seq![e], b, pred);
    Seq::filter_distributes_over_add(a, seq![e], pred);
    assert(seq![e].drop_last() =~= Seq::<Event>::empty());
    assert(Seq::<Event>::empty().filter(pred) =~= Seq::<Event>::empty());
    let fe = seq![e].filter(pred);
    if t == e.from {
        assert(fe =~= seq![e]);
        lemma_starting_at_none(b, t);
        assert(b.filter(pred) =~= Seq::<Event>::empty());
        assert(starting_at(r, t) =~= a.filter(pred));
        assert(starting_at(r.insert(p, e), t) =~= a.filter(pred) + seq![e]);
    } else {
        assert(fe =~= Seq::<Event>::empty());
        assert(starting_at(r.insert(p, e), t) =~= a.filter(pred) + b.filter(pred));
    }
}

/// The events ordered by start; events that start at the same instant keep
/// their relative order (a stable sort, as `sort_by_key` performs).
pub fn sort_by_start(events: Vec<Event>) -> (r: Vec<Event>)
    ensures
        r@.len() == events@.len(),
        sorted_by_start(r@),
        forall|t: i128| #[trigger] starting_at(r@, t) == starting_at(events@, t),
        sorted_by_start(events@) ==> r@ == events@,
{
    let ghost all = events@;
    let mut r: Vec<Event> = Vec::new();
    proof {
        assert(all.take(0) =~= Seq::<Event>::empty());
        assert forall|t: i128| #[trigger] starting_at(r@, t) == starting_at(all.take(0), t) by {
            reveal(Seq::filter);
        }
    }
    for event in it: events.into_iter()
        invariant
            it.seq() == all,
            it.index() <= all.len(),
            r@.len() == it.index(),
            sorted_by_start(r@),
            forall|t: i128| #[trigger] starting_at(r@, t) == starting_at(all.take(it.index() as int), t),
            sorted_by_start(all.take(it.index() as int)) ==> r@ == all.take(it.index() as int),
            it.index() == all.len() ==> (forall|t: i128| #[trigger] starting_at(r@, t) == starting_at(all, t)),
            it.index() == all.len() ==> (sorted_by_start(all) ==> r@ == all),
    {
        let ghost i = it.index() as int;
        let ghost before = r@;
        let mut p = r.len();
        while p > 0 && r[p - 1].from > event.from
            invariant
                p <= r.len(),
                r@ == before,
                forall|k: int| p <= k < r.len() ==> (#[trigger] r@[k]).from > event.from,
            decreases p,
        {
            p = p - 1;
        }
        proof {
            assert(all.take(i + 1).drop_last() =~= all.take(i));
            assert(all.take(i + 1).last() == event);
            assert(all.take(i + 1) =~= all.take(i).push(event));
            if i + 1 == all.len() {
                assert(all.take(i + 1) =~= all);
            }
            if p > 0 {
                assert(r@[p - 1].from <= event.from);
            }
        }
        r.insert(p, event);
        proof {
            assert forall|t: i128| #[trigger] starting_at(r@, t) == starting_at(all.take(i + 1), t) by {
                reveal(Seq::filter);
                lemma_starting_at_insert(before, p as int, event, t);
            }
            assert forall|a: int, b: int| 0 <= a <= b < r@.len() implies r@[a].from <= r@[b].from by {
                if a < p && b > p {
                    assert(r@[a] == before[a]);
                    assert(r@[b] == before[b - 1]);
                } else if a < p && b == p {
                    assert(r@[a] == before[a]);
                    if p > 0 {
                        assert(before[a].from <= before[p - 1].from);
                    }
                } else if a == p && b > p {
                    assert(r@[b] == before[b - 1]);
                } else if a < p {
                    assert(r@[a] == before[a]);
                    assert(r@[b] == before[b]);
                } else if a > p {
                    assert(r@[a] == before[a - 1]);
                    assert(r@[b] == before[b - 1]);
                }
            }
            if sorted_by_start(all.take(i + 1)) {
                assert(sorted_by_start(all.take(i))) by {
                    assert forall|a: int, b: int| 0 <= a <= b < all.take(i).len() implies all.take(i)[a].from <= all.take(i)[b].from by {
                        assert(all.take(i)[a] == all.take(i + 1)[a]);
                        assert(all.take(i)[b] == all.take(i + 1)[b]);
                    }
                }
                assert(before == all.take(i));
                if p < before.len() {
                    assert(all.take(i + 1)[p as int] == before[p as int]);
                    assert(all.take(i + 1)[i] == event);
                    assert(before[p as int].from > event.from);
                }
                assert(p == before.len());
                assert(r@ =~= all.take(i + 1));
            }
        }
    }
    proof {
        if all.len() == 0 {
            assert(all.take(0) =~= all);
        }
    }
    r
}

/// The first `n` events (all of them if there are fewer).
pub fn take_first(events: Vec<Event>, n: usize) -> (r: Vec<Event>)
    ensures
        r@ == events@.take(if n < events@.len() { n as int } else { events@.len() as int }),
{
    let mut events = events;
    let ghost old_events = events@;
    events.truncate(n);
    proof {
        if n >= old_events.len() {
            assert(old_events.take(old_events.len() as int) =~= old_events);
        }
    }
    events
}

} // verus!
