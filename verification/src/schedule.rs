//! Turning a KronoX schedule document into events: the explanation tables
//! are read into lookup tables, and each booking is joined with them.
use vstd::prelude::*;

use crate::error::KronoxError;
use crate::model::{
    location_views, teacher_views, Event, EventView, Location, LocationView, Teacher, TeacherView,
};
use crate::pattern::{remove_html_tags, strip_tags};
use crate::time::{parse_utc, spec_parse_utc};
use crate::text::{
    chars_of, split_once, split_once_chars, str_eq, string_of, strip_prefixes,
    strip_prefixes_chars, strip_suffixes, strip_suffixes_chars, trim, trim_chars, trim_str, views,
};
use crate::xml::{Column, EventPost, ExplanationRow, KronoxScheduleXml, ResourceNode, Row};

verus! {

/// Explanation table of courses.
pub const COURSE_TYPE: &'static str = "UTB_KURSINSTANS_GRUPPER";

/// Explanation table of teachers.
pub const TEACHER_TYPE: &'static str = "RESURSER_SIGNATURER";

/// Explanation table of rooms.
pub const LOCATION_TYPE: &'static str = "RESURSER_LOKALER";

/// Resource type of a programme class (a schedule).
pub const CLASS_TYPE: &'static str = "UTB_PROGRAMINSTANS_KLASSER";

/// Column of every explanation table that holds the resource id.
pub const ID_COLUMN: &'static str = "Id";

/// Course table column with the course name.
pub const COURSE_NAME_COLUMN: &'static str = "KursNamn_SV";

/// Teacher table column with the first name.
pub const FIRST_NAME_COLUMN: &'static str = "ForNamn";

/// Teacher table column with the last name.
pub const LAST_NAME_COLUMN: &'static str = "EfterNamn";

/// Room table column with the room name.
pub const ROOM_NAME_COLUMN: &'static str = "Lokalnamn";

/// Room table column with the building.
pub const BUILDING_COLUMN: &'static str = "Hus";

/// Room table column with the floor.
pub const FLOOR_COLUMN: &'static str = "Vaning";

/// Room table column with the number of seats.
pub const SEATS_COLUMN: &'static str = "Antalplatser";

/// Opening of a CDATA section that may wrap a resource id.
pub const CDATA_OPEN: &'static str = "<![CDATA[";

/// Closing of a CDATA section that may wrap a resource id.
pub const CDATA_CLOSE: &'static str = "]]>";

/// Placeholder for a missing course id or name.
pub const UNKNOWN: &'static str = "N/A";

/// (header, value) pairs of a row, values trimmed.
pub open spec fn row_entries(r: Row) -> Seq<(Seq<char>, Seq<char>)> {
    r.columns@.map_values(|c: Column| (c.header@, trim(c.value@)))
}

/// (header, value) pairs of a sequence of columns.
pub open spec fn column_pairs(s: Seq<Column>) -> Seq<(Seq<char>, Seq<char>)> {
    s.map_values(|c: Column| (c.header@, c.value@))
}

/// (header, value) pairs of each of a sequence of column vectors.
pub open spec fn column_tables(s: Seq<Vec<Column>>) -> Seq<Seq<(Seq<char>, Seq<char>)>> {
    s.map_values(|v: Vec<Column>| column_pairs(v@))
}

/// The rows of every explanation table of type `t`, in order, each as its
/// (header, trimmed value) pairs.
pub open spec fn rows_of_type(rows: Seq<ExplanationRow>, t: Seq<char>) -> Seq<
    Seq<(Seq<char>, Seq<char>)>,
>
    decreases rows.len(),
{
    if rows.len() == 0 {
        Seq::empty()
    } else {
        let prev = rows_of_type(rows.drop_last(), t);
        if rows.last().row_type@ == t {
            prev + rows.last().rows@.map_values(|r: Row| row_entries(r))
        } else {
            prev
        }
    }
}

/// The value of the last column named `header`, as a map collected from the
/// row keeps it.
pub open spec fn column_value(entries: Seq<(Seq<char>, Seq<char>)>, header: Seq<char>) -> Option<
    Seq<char>,
>
    decreases entries.len(),
{
    if entries.len() == 0 {
        None
    } else if entries.last().0 == header {
        Some(entries.last().1)
    } else {
        column_value(entries.drop_last(), header)
    }
}

/// The value of a column, or the empty string.
pub open spec fn column_or_empty(entries: Seq<(Seq<char>, Seq<char>)>, header: Seq<char>) -> Seq<
    char,
> {
    match column_value(entries, header) {
        Some(v) => v,
        None => Seq::empty(),
    }
}

/// The value for `key` in a table of (key, value) entries: the last entry
/// with that key, as a map collected from the entries keeps it.
pub open spec fn table_find<W>(t: Seq<(Seq<char>, W)>, key: Seq<char>) -> Option<W>
    decreases t.len(),
{
    if t.len() == 0 {
        None
    } else if t.last().0 == key {
        Some(t.last().1)
    } else {
        table_find(t.drop_last(), key)
    }
}

/// A table with keys and values taken by their views.
pub open spec fn keyed_views<V: View>(t: Seq<(String, V)>) -> Seq<(Seq<char>, V::V)> {
    t.map_values(|p: (String, V)| (p.0@, p.1@))
}

/// The columns of every row of the explanation tables of type `row_type`,
/// values trimmed.
pub fn columns_of(rows: &[ExplanationRow], row_type: &str) -> (r: Vec<Vec<Column>>)
    ensures
        column_tables(r@) == rows_of_type(rows@, row_type@),
{
    let mut r: Vec<Vec<Column>> = Vec::new();
    let mut i: usize = 0;
    proof {
        assert(rows@.take(0) =~= Seq::<ExplanationRow>::empty());
        assert(column_tables(r@) =~= rows_of_type(rows@.take(0), row_type@));
    }
    while i < rows.len()
        invariant
            i <= rows.len(),
            column_tables(r@) == rows_of_type(rows@.take(i as int), row_type@),
        decreases rows.len() - i,
    {
        let explanation = &rows[i];
        proof {
            assert(rows@.take(i + 1).drop_last() =~= rows@.take(i as int));
            assert(rows@.take(i + 1).last() == rows@[i as int]);
        }
        if str_eq(explanation.row_type.as_str(), row_type) {
            let ghost prev = column_tables(r@);
            let tables = &explanation.rows;
            let mut j: usize = 0;
            proof {
                assert(column_tables(r@) =~= prev + tables@.take(0).map_values(
                    |x: Row| row_entries(x),
                ));
            }
            while j < tables.len()
                invariant
                    i < rows.len(),
                    tables == &rows@[i as int].rows,
                    j <= tables.len(),
                    column_tables(r@) == prev + tables@.take(j as int).map_values(
                        |x: Row| row_entries(x),
                    ),
                decreases tables.len() - j,
            {
                let row = &tables[j];
                let mut cols: Vec<Column> = Vec::new();
                let mut k: usize = 0;
                while k < row.columns.len()
                    invariant
                        k <= row.columns.len(),
                        column_pairs(cols@) == row.columns@.take(k as int).map_values(
                            |c: Column| (c.header@, trim(c.value@)),
                        ),
                    decreases row.columns.len() - k,
                {
                    let column = &row.columns[k];
                    let value = trim_str(column.value.as_str());
                    let ghost before = cols@;
                    cols.push(Column { header: column.header.clone(), value });
                    proof {
                        assert(column_pairs(cols@) =~= column_pairs(before).push(
                            (column.header@, trim(column.value@)),
                        ));
                        assert(row.columns@.take(k + 1) =~= row.columns@.take(k as int).push(
                            *column,
                        ));
                        assert(column_pairs(cols@) =~= row.columns@.take(k + 1).map_values(
                            |c: Column| (c.header@, trim(c.value@)),
                        ));
                    }
                    k = k + 1;
                }
                proof {
                    assert(row.columns@.take(row.columns.len() as int) =~= row.columns@);
                    assert(column_pairs(cols@) == row_entries(*row));
                }
                let ghost before = r@;
                r.push(cols);
                proof {
                    assert(column_tables(r@) =~= column_tables(before).push(row_entries(*row)));
                    assert(tables@.take(j + 1).map_values(|x: Row| row_entries(x)) =~= tables@.take(
                        j as int,
                    ).map_values(|x: Row| row_entries(x)).push(row_entries(*row)));
                    assert(column_tables(r@) =~= prev + tables@.take(j + 1).map_values(
                        |x: Row| row_entries(x),
                    ));
                }
                j = j + 1;
            }
            proof {
                assert(tables@.take(tables.len() as int) =~= tables@);
            }
        }
        i = i + 1;
    }
    proof {
        assert(rows@.take(rows.len() as int) =~= rows@);
    }
    r
}

/// The value of the last column named `header`, if any.
pub fn find_column(cols: &Vec<Column>, header: &str) -> (r: Option<String>)
    ensures
        match r {
            Some(v) => column_value(column_pairs(cols@), header@) == Some(v@),
            None => column_value(column_pairs(cols@), header@) is None,
        },
{
    let mut i: usize = cols.len();
    proof {
        assert(column_pairs(cols@).take(cols.len() as int) =~= column_pairs(cols@));
    }
    while i > 0
        invariant
            i <= cols.len(),
            column_value(column_pairs(cols@), header@) == column_value(
                column_pairs(cols@).take(i as int),
                header@,
            ),
        decreases i,
    {
        let ghost pre = column_pairs(cols@).take(i as int);
        proof {
            assert(pre.last() == (cols@[i - 1].header@, cols@[i - 1].value@));
            assert(pre.drop_last() =~= column_pairs(cols@).take(i - 1));
        }
        if str_eq(cols[i - 1].header.as_str(), header) {
            return Some(cols[i - 1].value.clone());
        }
        i = i - 1;
    }
    None
}

/// The value for `key` in `t`, the last entry with that key.
pub fn table_get<'a, V: View>(t: &'a Vec<(String, V)>, key: &String) -> (r: Option<&'a V>)
    ensures
        match r {
            Some(v) => table_find(keyed_views(t@), key@) == Some(v@),
            None => table_find(keyed_views(t@), key@) is None,
        },
{
    let mut i: usize = t.len();
    proof {
        assert(keyed_views(t@).take(t.len() as int) =~= keyed_views(t@));
    }
    while i > 0
        invariant
            i <= t.len(),
            table_find(keyed_views(t@), key@) == table_find(
                keyed_views(t@).take(i as int),
                key@,
            ),
        decreases i,
    {
        let ghost pre = keyed_views(t@).take(i as int);
        proof {
            assert(pre.last() == (t@[i - 1].0@, t@[i - 1].1@));
            assert(pre.drop_last() =~= keyed_views(t@).take(i - 1));
        }
        if t[i - 1].0 == *key {
            return Some(&t[i - 1].1);
        }
        i = i - 1;
    }
    None
}

/// Course table entries (id, name) of rows with a non-empty id and name.
pub open spec fn course_entries(tables: Seq<Seq<(Seq<char>, Seq<char>)>>) -> Seq<
    (Seq<char>, Seq<char>),
>
    decreases tables.len(),
{
    if tables.len() == 0 {
        Seq::empty()
    } else {
        let prev = course_entries(tables.drop_last());
        let m = tables.last();
        let id = column_value(m, ID_COLUMN@);
        let name = column_value(m, COURSE_NAME_COLUMN@);
        if id is Some && name is Some && id->0.len() > 0 && name->0.len() > 0 {
            prev.push((id->0, name->0))
        } else {
            prev
        }
    }
}

/// Teacher table entries of rows with a non-empty id; missing names are empty.
pub open spec fn teacher_entries(tables: Seq<Seq<(Seq<char>, Seq<char>)>>) -> Seq<
    (Seq<char>, TeacherView),
>
    decreases tables.len(),
{
    if tables.len() == 0 {
        Seq::empty()
    } else {
        let prev = teacher_entries(tables.drop_last());
        let m = tables.last();
        let id = column_value(m, ID_COLUMN@);
        if id is Some && id->0.len() > 0 {
            prev.push(
                (
                    id->0,
                    TeacherView {
                        id: id->0,
                        first_name: column_or_empty(m, FIRST_NAME_COLUMN@),
                        last_name: column_or_empty(m, LAST_NAME_COLUMN@),
                    },
                ),
            )
        } else {
            prev
        }
    }
}

/// Room table entries of rows with a non-empty id; missing fields are empty.
pub open spec fn location_entries(tables: Seq<Seq<(Seq<char>, Seq<char>)>>) -> Seq<
    (Seq<char>, LocationView),
>
    decreases tables.len(),
{
    if tables.len() == 0 {
        Seq::empty()
    } else {
        let prev = location_entries(tables.drop_last());
        let m = tables.last();
        let id = column_value(m, ID_COLUMN@);
        if id is Some && id->0.len() > 0 {
            prev.push(
                (
                    id->0,
                    LocationView {
                        id: id->0,
                        name: column_or_empty(m, ROOM_NAME_COLUMN@),
                        building: column_or_empty(m, BUILDING_COLUMN@),
                        floor: column_or_empty(m, FLOOR_COLUMN@),
                        max_seats: column_or_empty(m, SEATS_COLUMN@),
                    },
                ),
            )
        } else {
            prev
        }
    }
}

fn column_or_empty_exec(cols: &Vec<Column>, header: &str) -> (r: String)
    ensures
        r@ == column_or_empty(column_pairs(cols@), header@),
{
    match find_column(cols, header) {
        Some(v) => v,
        None => String::new(),
    }
}

/// Course names by course id.
pub fn course_lookup(rows: &[ExplanationRow]) -> (r: Vec<(String, String)>)
    ensures
        keyed_views(r@) == course_entries(rows_of_type(rows@, COURSE_TYPE@)),
{
    let tables = columns_of(rows, COURSE_TYPE);
    let ghost ts = column_tables(tables@);
    let mut r: Vec<(String, String)> = Vec::new();
    let mut i: usize = 0;
    proof {
        assert(ts.take(0) =~= Seq::<Seq<(Seq<char>, Seq<char>)>>::empty());
        assert(keyed_views(r@) =~= course_entries(ts.take(0)));
    }
    while i < tables.len()
        invariant
            i <= tables.len(),
            ts == column_tables(tables@),
            keyed_views(r@) == course_entries(ts.take(i as int)),
        decreases tables.len() - i,
    {
        proof {
            assert(ts.take(i + 1).drop_last() =~= ts.take(i as int));
            assert(ts.take(i + 1).last() == column_pairs(tables@[i as int]@));
        }
        let id = find_column(&tables[i], ID_COLUMN);
        let name = find_column(&tables[i], COURSE_NAME_COLUMN);
        match (id, name) {
            (Some(id), Some(name)) => {
                if !id.as_str().is_empty() && !name.as_str().is_empty() {
                    let ghost before = r@;
                    r.push((id, name));
                    proof {
                        assert(keyed_views(r@) =~= keyed_views(before).push(
                            (r@.last().0@, r@.last().1@),
                        ));
                    }
                }
            },
            _ => {},
        }
        i = i + 1;
    }
    proof {
        assert(ts.take(tables.len() as int) =~= ts);
    }
    r
}

/// Teachers by teacher id.
pub fn teacher_lookup(rows: &[ExplanationRow]) -> (r: Vec<(String, Teacher)>)
    ensures
        keyed_views(r@) == teacher_entries(rows_of_type(rows@, TEACHER_TYPE@)),
{
    let tables = columns_of(rows, TEACHER_TYPE);
    let ghost ts = column_tables(tables@);
    let mut r: Vec<(String, Teacher)> = Vec::new();
    let mut i: usize = 0;
    proof {
        assert(ts.take(0) =~= Seq::<Seq<(Seq<char>, Seq<char>)>>::empty());
        assert(keyed_views(r@) =~= teacher_entries(ts.take(0)));
    }
    while i < tables.len()
        invariant
            i <= tables.len(),
            ts == column_tables(tables@),
            keyed_views(r@) == teacher_entries(ts.take(i as int)),
        decreases tables.len() - i,
    {
        proof {
            assert(ts.take(i + 1).drop_last() =~= ts.take(i as int));
            assert(ts.take(i + 1).last() == column_pairs(tables@[i as int]@));
        }
        let cols = &tables[i];
        match find_column(cols, ID_COLUMN) {
            Some(id) => {
                if !id.as_str().is_empty() {
                    let teacher = Teacher {
                        id: id.clone(),
                        first_name: column_or_empty_exec(cols, FIRST_NAME_COLUMN),
                        last_name: column_or_empty_exec(cols, LAST_NAME_COLUMN),
                    };
                    let ghost before = r@;
                    r.push((id, teacher));
                    proof {
                        assert(keyed_views(r@) =~= keyed_views(before).push(
                            (r@.last().0@, r@.last().1@),
                        ));
                    }
                }
            },
            None => {},
        }
        i = i + 1;
    }
    proof {
        assert(ts.take(tables.len() as int) =~= ts);
    }
    r
}

/// Rooms by room id.
pub fn location_lookup(rows: &[ExplanationRow]) -> (r: Vec<(String, Location)>)
    ensures
        keyed_views(r@) == location_entries(rows_of_type(rows@, LOCATION_TYPE@)),
{
    let tables = columns_of(rows, LOCATION_TYPE);
    let ghost ts = column_tables(tables@);
    let mut r: Vec<(String, Location)> = Vec::new();
    let mut i: usize = 0;
    proof {
        assert(ts.take(0) =~= Seq::<Seq<(Seq<char>, Seq<char>)>>::empty());
        assert(keyed_views(r@) =~= location_entries(ts.take(0)));
    }
    while i < tables.len()
        invariant
            i <= tables.len(),
            ts == column_tables(tables@),
            keyed_views(r@) == location_entries(ts.take(i as int)),
        decreases tables.len() - i,
    {
        proof {
            assert(ts.take(i + 1).drop_last() =~= ts.take(i as int));
            assert(ts.take(i + 1).last() == column_pairs(tables@[i as int]@));
        }
        let cols = &tables[i];
        match find_column(cols, ID_COLUMN) {
            Some(id) => {
                if !id.as_str().is_empty() {
                    let location = Location {
                        id: id.clone(),
                        name: column_or_empty_exec(cols, ROOM_NAME_COLUMN),
                        building: column_or_empty_exec(cols, BUILDING_COLUMN),
                        floor: column_or_empty_exec(cols, FLOOR_COLUMN),
                        max_seats: column_or_empty_exec(cols, SEATS_COLUMN),
                    };
                    let ghost before = r@;
                    r.push((id, location));
                    proof {
                        assert(keyed_views(r@) =~= keyed_views(before).push(
                            (r@.last().0@, r@.last().1@),
                        ));
                    }
                }
            },
            None => {},
        }
        i = i + 1;
    }
    proof {
        assert(ts.take(tables.len() as int) =~= ts);
    }
    r
}

/// A resource id without surrounding white space and CDATA markers.
pub open spec fn clean_id(raw: Seq<char>) -> Seq<char> {
    trim(strip_suffixes(strip_prefixes(trim(raw), CDATA_OPEN@), CDATA_CLOSE@))
}

/// Strips white space and a CDATA wrapper from a resource id.
pub fn clean_resource_id(raw: &str) -> (r: String)
    ensures
        r@ == clean_id(raw@),
{
    let raw_chars = chars_of(raw);
    let open = chars_of(CDATA_OPEN);
    let close = chars_of(CDATA_CLOSE);
    let a = trim_chars(&raw_chars);
    let b = strip_prefixes_chars(&a, &open);
    let c = strip_suffixes_chars(&b, &close);
    let d = trim_chars(&c);
    string_of(&d)
}

/// `value`, or the placeholder where it is empty.
pub open spec fn or_unknown(value: Seq<char>) -> Seq<char> {
    if value.len() == 0 {
        UNKNOWN@
    } else {
        value
    }
}

/// `value`, or the placeholder `N/A` where it is empty.
pub fn non_empty_or_unknown(value: String) -> (r: String)
    ensures
        r@ == or_unknown(value@),
{
    if value.as_str().is_empty() {
        UNKNOWN.to_owned()
    } else {
        value
    }
}

/// Whether a requested schedule id names the schedule id found in the
/// document: the part after its first `.` must equal it, or, without a `.`,
/// the whole id.
pub open spec fn schedule_id_matches(requested: Seq<char>, xml_id: Seq<char>) -> bool {
    match split_once(requested, '.') {
        Some(parts) => parts.1 == xml_id,
        None => requested == xml_id,
    }
}

/// The first requested id that names `xml_id`.
pub open spec fn first_matching(requested: Seq<Seq<char>>, xml_id: Seq<char>) -> Option<Seq<char>>
    decreases requested.len(),
{
    if requested.len() == 0 {
        None
    } else if schedule_id_matches(requested[0], xml_id) {
        Some(requested[0])
    } else {
        first_matching(requested.drop_first(), xml_id)
    }
}

/// For the first document id that some requested id names, the first
/// requested id that names it.
pub open spec fn matched_schedule_id(requested: Seq<Seq<char>>, from_xml: Seq<Seq<char>>) -> Option<
    Seq<char>,
>
    decreases from_xml.len(),
{
    if from_xml.len() == 0 {
        None
    } else {
        match first_matching(requested, from_xml[0]) {
            Some(r) => Some(r),
            None => matched_schedule_id(requested, from_xml.drop_first()),
        }
    }
}

fn id_matches(requested: &String, xml_id: &String) -> (r: bool)
    ensures
        r == schedule_id_matches(requested@, xml_id@),
{
    let req = chars_of(requested.as_str());
    let xml = chars_of(xml_id.as_str());
    match split_once_chars(&req, '.') {
        Some((_, suffix)) => crate::text::chars_eq(&suffix, &xml),
        None => crate::text::chars_eq(&req, &xml),
    }
}

/// Which requested schedule id the document's schedule ids point back to.
pub fn match_schedule_id(requested: &[String], from_xml: &[String]) -> (r: Option<String>)
    ensures
        match r {
            Some(s) => matched_schedule_id(views(requested@), views(from_xml@)) == Some(s@),
            None => matched_schedule_id(views(requested@), views(from_xml@)) is None,
        },
{
    let mut i: usize = 0;
    proof {
        assert(views(from_xml@).skip(0) =~= views(from_xml@));
    }
    while i < from_xml.len()
        invariant
            i <= from_xml.len(),
            matched_schedule_id(views(requested@), views(from_xml@)) == matched_schedule_id(
                views(requested@),
                views(from_xml@).skip(i as int),
            ),
        decreases from_xml.len() - i,
    {
        let ghost rest = views(from_xml@).skip(i as int);
        proof {
            assert(rest[0] == from_xml@[i as int]@);
            assert(rest.drop_first() =~= views(from_xml@).skip(i + 1));
        }
        let mut j: usize = 0;
        proof {
            assert(views(requested@).skip(0) =~= views(requested@));
        }
        while j < requested.len()
            invariant
                i < from_xml.len(),
                j <= requested.len(),
                rest == views(from_xml@).skip(i as int),
                rest.len() > 0,
                rest[0] == from_xml@[i as int]@,
                matched_schedule_id(views(requested@), views(from_xml@)) == matched_schedule_id(
                    views(requested@),
                    rest,
                ),
                first_matching(views(requested@), from_xml@[i as int]@) == first_matching(
                    views(requested@).skip(j as int),
                    from_xml@[i as int]@,
                ),
            decreases requested.len() - j,
        {
            let ghost rq = views(requested@).skip(j as int);
            proof {
                assert(rq[0] == requested@[j as int]@);
                assert(rq.drop_first() =~= views(requested@).skip(j + 1));
            }
            if id_matches(&requested[j], &from_xml[i]) {
                proof {
                    assert(first_matching(rq, from_xml@[i as int]@) == Some(rq[0]));
                    assert(first_matching(views(requested@), rest[0]) == Some(requested@[j as int]@));
                    assert(matched_schedule_id(views(requested@), rest) == Some(
                        requested@[j as int]@,
                    ));
                }
                return Some(requested[j].clone());
            }
            j = j + 1;
        }
        proof {
            assert(views(requested@).skip(requested.len() as int) =~= Seq::<Seq<char>>::empty());
            assert(first_matching(views(requested@), rest[0]) is None);
        }
        i = i + 1;
    }
    proof {
        assert(views(from_xml@).skip(from_xml.len() as int) =~= Seq::<Seq<char>>::empty());
    }
    None
}

/// Timestamp format of the schedule document (`20260722T080000Z`).
pub const TIME_FORMAT: &'static str = "%Y%m%dT%H%M%SZ";

/// Colour every scraped event gets.
pub const DEFAULT_COLOR: &'static str = "#4A90E2";

/// What the resources of one booking resolve to.
pub struct Resources {
    pub course_id: String,
    pub course_name: String,
    pub teachers: Vec<Teacher>,
    pub locations: Vec<Location>,
    pub schedule_ids: Vec<String>,
}

/// Resolved resources, with strings taken as character sequences.
pub struct ResourcesView {
    pub course_id: Seq<char>,
    pub course_name: Seq<char>,
    pub teachers: Seq<TeacherView>,
    pub locations: Seq<LocationView>,
    pub schedule_ids: Seq<Seq<char>>,
}

impl View for Resources {
    type V = ResourcesView;

    open spec fn view(&self) -> ResourcesView {
        ResourcesView {
            course_id: self.course_id@,
            course_name: self.course_name@,
            teachers: teacher_views(self.teachers@),
            locations: location_views(self.locations@),
            schedule_ids: views(self.schedule_ids@),
        }
    }
}

/// The resources with the next node taken into account: a course node sets
/// the course id (and the name, where the course table knows it), a teacher
/// or room node adds the teacher or room the tables know, a class node adds
/// its URL-encoded id (or, where that is empty, its id).
pub open spec fn resolve_step(
    r: ResourcesView,
    node: ResourceNode,
    teachers: Seq<(Seq<char>, TeacherView)>,
    locations: Seq<(Seq<char>, LocationView)>,
    courses: Seq<(Seq<char>, Seq<char>)>,
) -> ResourcesView {
    let id = clean_id(node.id@);
    if node.type_id@ == COURSE_TYPE@ {
        ResourcesView {
            course_id: id,
            course_name: match table_find(courses, id) {
                Some(name) => name,
                None => r.course_name,
            },
            ..r
        }
    } else if node.type_id@ == TEACHER_TYPE@ {
        match table_find(teachers, id) {
            Some(t) => ResourcesView { teachers: r.teachers.push(t), ..r },
            None => r,
        }
    } else if node.type_id@ == LOCATION_TYPE@ {
        match table_find(locations, id) {
            Some(l) => ResourcesView { locations: r.locations.push(l), ..r },
            None => r,
        }
    } else if node.type_id@ == CLASS_TYPE@ {
        ResourcesView {
            schedule_ids: r.schedule_ids.push(
                if node.url_encoded_id@.len() == 0 {
                    id
                } else {
                    node.url_encoded_id@
                },
            ),
            ..r
        }
    } else {
        r
    }
}

/// The resources of a booking's nodes, taken in order.
pub open spec fn resolved(
    nodes: Seq<ResourceNode>,
    teachers: Seq<(Seq<char>, TeacherView)>,
    locations: Seq<(Seq<char>, LocationView)>,
    courses: Seq<(Seq<char>, Seq<char>)>,
) -> ResourcesView
    decreases nodes.len(),
{
    if nodes.len() == 0 {
        ResourcesView {
            course_id: Seq::empty(),
            course_name: Seq::empty(),
            teachers: Seq::empty(),
            locations: Seq::empty(),
            schedule_ids: Seq::empty(),
        }
    } else {
        resolve_step(
            resolved(nodes.drop_last(), teachers, locations, courses),
            nodes.last(),
            teachers,
            locations,
            courses,
        )
    }
}

/// Joins the resource nodes of a booking with the lookup tables.
pub fn resolve_resources(
    post: &EventPost,
    teachers: &Vec<(String, Teacher)>,
    locations: &Vec<(String, Location)>,
    courses: &Vec<(String, String)>,
) -> (r: Resources)
    ensures
        r@ == resolved(
            post.resource_row.resource_nodes@,
            keyed_views(teachers@),
            keyed_views(locations@),
            keyed_views(courses@),
        ),
{
    let nodes = &post.resource_row.resource_nodes;
    let ghost tv = keyed_views(teachers@);
    let ghost lv = keyed_views(locations@);
    let ghost cv = keyed_views(courses@);
    let mut r = Resources {
        course_id: String::new(),
        course_name: String::new(),
        teachers: Vec::new(),
        locations: Vec::new(),
        schedule_ids: Vec::new(),
    };
    let mut i: usize = 0;
    proof {
        assert(nodes@.take(0) =~= Seq::<ResourceNode>::empty());
        assert(teacher_views(r.teachers@) =~= Seq::<TeacherView>::empty());
        assert(location_views(r.locations@) =~= Seq::<LocationView>::empty());
        assert(views(r.schedule_ids@) =~= Seq::<Seq<char>>::empty());
        assert(r@ =~= resolved(nodes@.take(0), tv, lv, cv));
    }
    while i < nodes.len()
        invariant
            i <= nodes.len(),
            tv == keyed_views(teachers@),
            lv == keyed_views(locations@),
            cv == keyed_views(courses@),
            r@ == resolved(nodes@.take(i as int), tv, lv, cv),
        decreases nodes.len() - i,
    {
        let node = &nodes[i];
        let ghost before = r@;
        proof {
            assert(nodes@.take(i + 1).drop_last() =~= nodes@.take(i as int));
            assert(nodes@.take(i + 1).last() == *node);
        }
        let id = clean_resource_id(node.id.as_str());
        if str_eq(node.type_id.as_str(), COURSE_TYPE) {
            match table_get(courses, &id) {
                Some(name) => {
                    r.course_name = name.clone();
                },
                None => {},
            }
            r.course_id = id;
            proof {
                assert(r@ =~= resolve_step(before, *node, tv, lv, cv));
            }
        } else if str_eq(node.type_id.as_str(), TEACHER_TYPE) {
            match table_get(teachers, &id) {
                Some(teacher) => {
                    r.teachers.push(teacher.clone());
                    proof {
                        assert(teacher_views(r.teachers@) =~= before.teachers.push(teacher@));
                    }
                },
                None => {},
            }
            proof {
                assert(r@ =~= resolve_step(before, *node, tv, lv, cv));
            }
        } else if str_eq(node.type_id.as_str(), LOCATION_TYPE) {
            match table_get(locations, &id) {
                Some(location) => {
                    r.locations.push(location.clone());
                    proof {
                        assert(location_views(r.locations@) =~= before.locations.push(location@));
                    }
                },
                None => {},
            }
            proof {
                assert(r@ =~= resolve_step(before, *node, tv, lv, cv));
            }
        } else if str_eq(node.type_id.as_str(), CLASS_TYPE) {
            if node.url_encoded_id.as_str().is_empty() {
                r.schedule_ids.push(id);
            } else {
                r.schedule_ids.push(node.url_encoded_id.clone());
            }
            proof {
                assert(views(r.schedule_ids@) =~= before.schedule_ids.push(
                    r.schedule_ids@.last()@,
                ));
                assert(r@ =~= resolve_step(before, *node, tv, lv, cv));
            }
        }
        i = i + 1;
    }
    proof {
        assert(nodes@.take(nodes.len() as int) =~= nodes@);
    }
    r
}

/// The schedule id an event belongs to: the requested id that the booking's
/// class ids point back to, else the first requested id, else empty.
pub open spec fn chosen_schedule_id(requested: Seq<Seq<char>>, from_xml: Seq<Seq<char>>) -> Seq<
    char,
> {
    match matched_schedule_id(requested, from_xml) {
        Some(id) => id,
        None => if requested.len() > 0 {
            requested[0]
        } else {
            Seq::empty()
        },
    }
}

/// The event a booking describes, or `None` where its start or end cannot be
/// read. A last-modified time that cannot be read becomes the Unix epoch.
pub open spec fn event_of(
    school_code: Seq<char>,
    schedule_ids: Seq<Seq<char>>,
    post: EventPost,
    teachers: Seq<(Seq<char>, TeacherView)>,
    locations: Seq<(Seq<char>, LocationView)>,
    courses: Seq<(Seq<char>, Seq<char>)>,
) -> Option<EventView> {
    let from = spec_parse_utc(post.booked_dates.start_date_time@, TIME_FORMAT@);
    let to = spec_parse_utc(post.booked_dates.end_date_time@, TIME_FORMAT@);
    if from is None || to is None {
        None
    } else {
        let res = resolved(post.resource_row.resource_nodes@, teachers, locations, courses);
        Some(
            EventView {
                event_id: post.booking_id@,
                schedule_id: chosen_schedule_id(schedule_ids, res.schedule_ids),
                title: trim(strip_tags(post.moment@)),
                course_id: or_unknown(res.course_id),
                course_name: or_unknown(res.course_name),
                teachers: res.teachers,
                from: from->0 as i128,
                to: to->0 as i128,
                locations: res.locations,
                last_modified: match spec_parse_utc(post.last_modified@, TIME_FORMAT@) {
                    Some(t) => t as i128,
                    None => 0i128,
                },
                is_special: false,
                school_code: school_code,
                color_hex: DEFAULT_COLOR@,
            },
        )
    }
}

/// The instant a schedule timestamp (`20260722T080000Z`) names.
pub fn parse_time(value: &str) -> (r: Result<i128, KronoxError>)
    ensures
        match r {
            Ok(t) => spec_parse_utc(value@, TIME_FORMAT@) == Some(t as int),
            Err(e) => spec_parse_utc(value@, TIME_FORMAT@) is None && e is Time,
        },
{
    match parse_utc(value, TIME_FORMAT) {
        Ok(t) => Ok(t),
        Err(e) => Err(KronoxError::Time(e)),
    }
}

/// The event a booking describes, joined with the lookup tables.
pub fn parse_event(
    school_code: &str,
    schedule_ids: &[String],
    post: &EventPost,
    teachers: &Vec<(String, Teacher)>,
    locations: &Vec<(String, Location)>,
    courses: &Vec<(String, String)>,
) -> (r: Result<Event, KronoxError>)
    ensures
        match r {
            Ok(e) => event_of(
                school_code@,
                views(schedule_ids@),
                *post,
                keyed_views(teachers@),
                keyed_views(locations@),
                keyed_views(courses@),
            ) == Some(e@),
            Err(err) => event_of(
                school_code@,
                views(schedule_ids@),
                *post,
                keyed_views(teachers@),
                keyed_views(locations@),
                keyed_views(courses@),
            ) is None && err is Time,
        },
{
    let from = match parse_time(post.booked_dates.start_date_time.as_str()) {
        Ok(t) => t,
        Err(e) => return Err(e),
    };
    let to = match parse_time(post.booked_dates.end_date_time.as_str()) {
        Ok(t) => t,
        Err(e) => return Err(e),
    };
    let last_modified = match parse_time(post.last_modified.as_str()) {
        Ok(t) => t,
        Err(_) => 0,
    };
    let stripped = remove_html_tags(post.moment.as_str());
    let title = trim_str(stripped.as_str());
    let resources = resolve_resources(post, teachers, locations, courses);
    let schedule_id = match match_schedule_id(schedule_ids, resources.schedule_ids.as_slice()) {
        Some(id) => id,
        None => if schedule_ids.len() > 0 {
            schedule_ids[0].clone()
        } else {
            String::new()
        },
    };
    let Resources { course_id, course_name, teachers, locations, schedule_ids: _ } = resources;
    let event = Event {
        event_id: post.booking_id.clone(),
        schedule_id,
        title,
        course_id: non_empty_or_unknown(course_id),
        course_name: non_empty_or_unknown(course_name),
        teachers,
        from,
        to,
        locations,
        last_modified,
        is_special: false,
        school_code: school_code.to_owned(),
        color_hex: DEFAULT_COLOR.to_owned(),
    };
    Ok(event)
}

/// The events of the bookings whose start and end can be read, in order.
pub open spec fn events_of(
    school_code: Seq<char>,
    schedule_ids: Seq<Seq<char>>,
    posts: Seq<EventPost>,
    teachers: Seq<(Seq<char>, TeacherView)>,
    locations: Seq<(Seq<char>, LocationView)>,
    courses: Seq<(Seq<char>, Seq<char>)>,
) -> Seq<EventView>
    decreases posts.len(),
{
    if posts.len() == 0 {
        Seq::empty()
    } else {
        let prev = events_of(
            school_code,
            schedule_ids,
            posts.drop_last(),
            teachers,
            locations,
            courses,
        );
        match event_of(school_code, schedule_ids, posts.last(), teachers, locations, courses) {
            Some(e) => prev.push(e),
            None => prev,
        }
    }
}

/// The events a schedule document describes: the explanation tables give the
/// course names, teachers and rooms, each booking becomes an event, and
/// bookings whose start or end cannot be read are left out.
pub open spec fn document_events(
    school_code: Seq<char>,
    schedule_ids: Seq<Seq<char>>,
    doc: KronoxScheduleXml,
) -> Seq<EventView> {
    let rows = doc.explanation_texts.rows@;
    events_of(
        school_code,
        schedule_ids,
        doc.posts@,
        teacher_entries(rows_of_type(rows, TEACHER_TYPE@)),
        location_entries(rows_of_type(rows, LOCATION_TYPE@)),
        course_entries(rows_of_type(rows, COURSE_TYPE@)),
    )
}

/// The events of a schedule document, dropping any booking whose timestamps
/// do not parse.
pub fn parse_schedule_document(
    school_code: &str,
    schedule_ids: &[String],
    document: &KronoxScheduleXml,
) -> (r: Vec<Event>)
    ensures
        crate::model::event_views(r@) == document_events(school_code@, views(schedule_ids@), *document),
{
    let rows = document.explanation_texts.rows.as_slice();
    let teachers = teacher_lookup(rows);
    let locations = location_lookup(rows);
    let courses = course_lookup(rows);
    let posts = &document.posts;
    let ghost tv = keyed_views(teachers@);
    let ghost lv = keyed_views(locations@);
    let ghost cv = keyed_views(courses@);
    let mut r: Vec<Event> = Vec::new();
    let mut i: usize = 0;
    proof {
        assert(posts@.take(0) =~= Seq::<EventPost>::empty());
        assert(crate::model::event_views(r@) =~= events_of(school_code@, views(schedule_ids@), posts@.take(0), tv, lv, cv));
    }
    while i < posts.len()
        invariant
            i <= posts.len(),
            tv == keyed_views(teachers@),
            lv == keyed_views(locations@),
            cv == keyed_views(courses@),
            crate::model::event_views(r@) == events_of(
                school_code@,
                views(schedule_ids@),
                posts@.take(i as int),
                tv,
                lv,
                cv,
            ),
        decreases posts.len() - i,
    {
        proof {
            assert(posts@.take(i + 1).drop_last() =~= posts@.take(i as int));
            assert(posts@.take(i + 1).last() == posts@[i as int]);
        }
        let ghost before = r@;
        match parse_event(school_code, schedule_ids, &posts[i], &teachers, &locations, &courses) {
            Ok(event) => {
                r.push(event);
                proof {
                    assert(crate::model::event_views(r@) =~= crate::model::event_views(before).push(
                        r@.last()@,
                    ));
                }
            },
            Err(_) => {},
        }
        i = i + 1;
    }
    proof {
        assert(posts@.take(posts.len() as int) =~= posts@);
    }
    r
}

proof fn lemma_first_matching_requested(requested: Seq<Seq<char>>, xml_id: Seq<char>)
    ensures
        first_matching(requested, xml_id) matches Some(r) ==> requested.contains(r),
    decreases requested.len(),
{
    if requested.len() > 0 {
        if schedule_id_matches(requested[0], xml_id) {
            assert(requested[0] == requested[0]);
        } else {
            let rest = requested.drop_first();
            lemma_first_matching_requested(rest, xml_id);
            match first_matching(rest, xml_id) {
                Some(r) => {
                    let k = choose|k: int| 0 <= k < rest.len() && rest[k] == r;
                    assert(requested[k + 1] == r);
                },
                None => {},
            }
        }
    }
}

proof fn lemma_matched_requested(requested: Seq<Seq<char>>, from_xml: Seq<Seq<char>>)
    ensures
        matched_schedule_id(requested, from_xml) matches Some(r) ==> requested.contains(r),
    decreases from_xml.len(),
{
    if from_xml.len() > 0 {
        lemma_first_matching_requested(requested, from_xml[0]);
        lemma_matched_requested(requested, from_xml.drop_first());
    }
}

proof fn lemma_events_of_requested(
    school_code: Seq<char>,
    schedule_ids: Seq<Seq<char>>,
    posts: Seq<EventPost>,
    teachers: Seq<(Seq<char>, TeacherView)>,
    locations: Seq<(Seq<char>, LocationView)>,
    courses: Seq<(Seq<char>, Seq<char>)>,
)
    ensures
        events_of(school_code, schedule_ids, posts, teachers, locations, courses).len() <= posts.len(),
        forall|k: int|
            0 <= k < events_of(school_code, schedule_ids, posts, teachers, locations, courses).len()
                ==> {
                let e = #[trigger] events_of(
                    school_code,
                    schedule_ids,
                    posts,
                    teachers,
                    locations,
                    courses,
                )[k];
                &&& e.school_code == school_code
                &&& schedule_ids.len() > 0 ==> schedule_ids.contains(e.schedule_id)
            },
    decreases posts.len(),
{
    if posts.len() > 0 {
        lemma_events_of_requested(
            school_code,
            schedule_ids,
            posts.drop_last(),
            teachers,
            locations,
            courses,
        );
        let post = posts.last();
        let res = resolved(post.resource_row.resource_nodes@, teachers, locations, courses);
        lemma_matched_requested(schedule_ids, res.schedule_ids);
        if schedule_ids.len() > 0 {
            assert(schedule_ids.contains(schedule_ids[0]));
        }
    }
}

/// Every event read from a schedule document belongs to the school that was
/// asked for and, where any schedule was asked for, to one of the schedules
/// asked for; and a document gives at most one event per booking.
pub proof fn lemma_document_events_requested(
    school_code: Seq<char>,
    schedule_ids: Seq<Seq<char>>,
    doc: KronoxScheduleXml,
)
    ensures
        document_events(school_code, schedule_ids, doc).len() <= doc.posts@.len(),
        forall|k: int|
            0 <= k < document_events(school_code, schedule_ids, doc).len() ==> {
                let e = #[trigger] document_events(school_code, schedule_ids, doc)[k];
                &&& e.school_code == school_code
                &&& schedule_ids.len() > 0 ==> schedule_ids.contains(e.schedule_id)
            },
{
    let rows = doc.explanation_texts.rows@;
    lemma_events_of_requested(
        school_code,
        schedule_ids,
        doc.posts@,
        teacher_entries(rows_of_type(rows, TEACHER_TYPE@)),
        location_entries(rows_of_type(rows, LOCATION_TYPE@)),
        course_entries(rows_of_type(rows, COURSE_TYPE@)),
    );
}

/// The resources of a booking's nodes split anywhere: the teachers, rooms
/// and class ids of the first part followed by those of the second.
pub proof fn lemma_resolved_concat(
    a: Seq<ResourceNode>,
    b: Seq<ResourceNode>,
    teachers: Seq<(Seq<char>, TeacherView)>,
    locations: Seq<(Seq<char>, LocationView)>,
    courses: Seq<(Seq<char>, Seq<char>)>,
)
    ensures
        resolved(a + b, teachers, locations, courses).teachers == resolved(
            a,
            teachers,
            locations,
            courses,
        ).teachers + resolved(b, teachers, locations, courses).teachers,
        resolved(a + b, teachers, locations, courses).locations == resolved(
            a,
            teachers,
            locations,
            courses,
        ).locations + resolved(b, teachers, locations, courses).locations,
        resolved(a + b, teachers, locations, courses).schedule_ids == resolved(
            a,
            teachers,
            locations,
            courses,
        ).schedule_ids + resolved(b, teachers, locations, courses).schedule_ids,
    decreases b.len(),
{
    if b.len() == 0 {
        assert(a + b =~= a);
        let ra = resolved(a, teachers, locations, courses);
        assert(ra.teachers + Seq::<TeacherView>::empty() =~= ra.teachers);
        assert(ra.locations + Seq::<LocationView>::empty() =~= ra.locations);
        assert(ra.schedule_ids + Seq::<Seq<char>>::empty() =~= ra.schedule_ids);
    } else {
        let b0 = b.drop_last();
        let n = b.last();
        lemma_resolved_concat(a, b0, teachers, locations, courses);
        assert((a + b).drop_last() =~= a + b0);
        assert((a + b).last() == n);
        let ra = resolved(a, teachers, locations, courses);
        let rb = resolved(b0, teachers, locations, courses);
        let id = clean_id(n.id@);
        match table_find(teachers, id) {
            Some(t) => {
                assert((ra.teachers + rb.teachers).push(t) =~= ra.teachers + rb.teachers.push(t));
            },
            None => {},
        }
        match table_find(locations, id) {
            Some(l) => {
                assert((ra.locations + rb.locations).push(l) =~= ra.locations + rb.locations.push(l));
            },
            None => {},
        }
        let cid = if n.url_encoded_id@.len() == 0 {
            id
        } else {
            n.url_encoded_id@
        };
        assert((ra.schedule_ids + rb.schedule_ids).push(cid) =~= ra.schedule_ids
            + rb.schedule_ids.push(cid));
    }
}

/// What one resource node contributes: a teacher node whose id the teacher
/// table knows gives that teacher, a room node whose id the room table knows
/// gives that room, and nothing else gives a teacher or a room.
pub proof fn lemma_resolved_node(
    n: ResourceNode,
    teachers: Seq<(Seq<char>, TeacherView)>,
    locations: Seq<(Seq<char>, LocationView)>,
    courses: Seq<(Seq<char>, Seq<char>)>,
)
    ensures
        resolved(seq![n], teachers, locations, courses).teachers == if n.type_id@ == TEACHER_TYPE@
            && table_find(teachers, clean_id(n.id@)) is Some {
            seq![table_find(teachers, clean_id(n.id@))->0]
        } else {
            Seq::<TeacherView>::empty()
        },
        resolved(seq![n], teachers, locations, courses).locations == if n.type_id@
            == LOCATION_TYPE@ && table_find(locations, clean_id(n.id@)) is Some {
            seq![table_find(locations, clean_id(n.id@))->0]
        } else {
            Seq::<LocationView>::empty()
        },
{
    reveal_strlit("UTB_KURSINSTANS_GRUPPER");
    reveal_strlit("RESURSER_SIGNATURER");
    reveal_strlit("RESURSER_LOKALER");
    reveal_strlit("UTB_PROGRAMINSTANS_KLASSER");
    assert(seq![n].drop_last() =~= Seq::<ResourceNode>::empty());
    assert(seq![n].last() == n);
    let r0 = resolved(Seq::<ResourceNode>::empty(), teachers, locations, courses);
    assert(r0.teachers == Seq::<TeacherView>::empty());
    assert(r0.locations == Seq::<LocationView>::empty());
    assert(resolved(seq![n], teachers, locations, courses) == resolve_step(r0, n, teachers, locations, courses));
    assert(COURSE_TYPE@.len() == 23);
    assert(TEACHER_TYPE@.len() == 19);
    assert(LOCATION_TYPE@.len() == 16);
    assert(CLASS_TYPE@.len() == 26);
    assert(Seq::<TeacherView>::empty().push(table_find(teachers, clean_id(n.id@))->0) =~= seq![
        table_find(teachers, clean_id(n.id@))->0,
    ]);
    assert(Seq::<LocationView>::empty().push(table_find(locations, clean_id(n.id@))->0) =~= seq![
        table_find(locations, clean_id(n.id@))->0,
    ]);
}

/// A booking's teachers are the teachers of its teacher nodes that the table
/// knows, one per such node, in node order; adding such a node after the
/// others adds its teacher at the end, whatever teachers came before. Rooms
/// likewise.
pub proof fn lemma_resolved_appends(
    nodes: Seq<ResourceNode>,
    n: ResourceNode,
    teachers: Seq<(Seq<char>, TeacherView)>,
    locations: Seq<(Seq<char>, LocationView)>,
    courses: Seq<(Seq<char>, Seq<char>)>,
)
    ensures
        (n.type_id@ == TEACHER_TYPE@ && table_find(teachers, clean_id(n.id@)) is Some)
            ==> resolved(nodes.push(n), teachers, locations, courses).teachers == resolved(
            nodes,
            teachers,
            locations,
            courses,
        ).teachers.push(table_find(teachers, clean_id(n.id@))->0),
        n.type_id@ != TEACHER_TYPE@ || table_find(teachers, clean_id(n.id@)) is None
            ==> resolved(nodes.push(n), teachers, locations, courses).teachers == resolved(
            nodes,
            teachers,
            locations,
            courses,
        ).teachers,
        (n.type_id@ == LOCATION_TYPE@ && table_find(locations, clean_id(n.id@)) is Some)
            ==> resolved(nodes.push(n), teachers, locations, courses).locations == resolved(
            nodes,
            teachers,
            locations,
            courses,
        ).locations.push(table_find(locations, clean_id(n.id@))->0),
        n.type_id@ != LOCATION_TYPE@ || table_find(locations, clean_id(n.id@)) is None
            ==> resolved(nodes.push(n), teachers, locations, courses).locations == resolved(
            nodes,
            teachers,
            locations,
            courses,
        ).locations,
{
    assert(nodes.push(n) =~= nodes + seq![n]);
    lemma_resolved_concat(nodes, seq![n], teachers, locations, courses);
    lemma_resolved_node(n, teachers, locations, courses);
    let r = resolved(nodes, teachers, locations, courses);
    assert(r.teachers + Seq::<TeacherView>::empty() =~= r.teachers);
    assert(r.locations + Seq::<LocationView>::empty() =~= r.locations);
    match table_find(teachers, clean_id(n.id@)) {
        Some(t) => {
            assert(r.teachers + seq![t] =~= r.teachers.push(t));
        },
        None => {},
    }
    match table_find(locations, clean_id(n.id@)) {
        Some(l) => {
            assert(r.locations + seq![l] =~= r.locations.push(l));
        },
        None => {},
    }
}

} // verus!
