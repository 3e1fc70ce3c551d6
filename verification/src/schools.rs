//! The configured schools: a school code names one school and its KronoX
//! base URLs, tried in order.
use vstd::prelude::*;

use crate::error::KronoxError;
use crate::schedule::{keyed_views, table_find};
use crate::text::views;

verus! {

/// One school and the KronoX instances that serve it.
#[derive(Debug)]
pub struct School {
    pub id: String,
    pub name: String,
    pub domain: String,
    pub urls: Vec<String>,
    pub logo_url: String,
}

/// A school, with its strings taken as character sequences.
pub struct SchoolView {
    pub id: Seq<char>,
    pub name: Seq<char>,
    pub domain: Seq<char>,
    pub urls: Seq<Seq<char>>,
    pub logo_url: Seq<char>,
}

impl View for School {
    type V = SchoolView;

    open spec fn view(&self) -> SchoolView {
        SchoolView {
            id: self.id@,
            name: self.name@,
            domain: self.domain@,
            urls: views(self.urls@),
            logo_url: self.logo_url@,
        }
    }
}

/// Whether no two entries share a key.
pub open spec fn unique_keys<W>(t: Seq<(Seq<char>, W)>) -> bool {
    forall|i: int, j: int| 0 <= i < j < t.len() ==> t[i].0 != t[j].0
}

/// The map that a sequence of (key, value) entries describes; a later entry
/// for a key replaces an earlier one.
pub open spec fn entries_map<W>(t: Seq<(Seq<char>, W)>) -> Map<Seq<char>, W>
    decreases t.len(),
{
    if t.len() == 0 {
        Map::empty()
    } else {
        entries_map(t.drop_last()).insert(t.last().0, t.last().1)
    }
}

proof fn lemma_entries_map_find<W>(t: Seq<(Seq<char>, W)>, k: Seq<char>)
    ensures
        entries_map(t).contains_key(k) <==> table_find(t, k) is Some,
        entries_map(t).contains_key(k) ==> table_find(t, k) == Some(entries_map(t)[k]),
    decreases t.len(),
{
    if t.len() > 0 {
        lemma_entries_map_find(t.drop_last(), k);
    }
}

proof fn lemma_entries_map_keys<W>(t: Seq<(Seq<char>, W)>, k: Seq<char>)
    ensures
        entries_map(t).contains_key(k) <==> exists|i: int| 0 <= i < t.len() && t[i].0 == k,
    decreases t.len(),
{
    if t.len() > 0 {
        lemma_entries_map_keys(t.drop_last(), k);
        if exists|i: int| 0 <= i < t.drop_last().len() && t.drop_last()[i].0 == k {
            let i = choose|i: int| 0 <= i < t.drop_last().len() && t.drop_last()[i].0 == k;
            assert(t[i].0 == k);
        }
        if exists|i: int| 0 <= i < t.len() && t[i].0 == k {
            let i = choose|i: int| 0 <= i < t.len() && t[i].0 == k;
            if i < t.len() - 1 {
                assert(t.drop_last()[i].0 == k);
            }
        }
    }
}

proof fn lemma_find_remove<W>(t: Seq<(Seq<char>, W)>, i: int, k: Seq<char>)
    requires
        0 <= i < t.len(),
        t[i].0 != k,
    ensures
        table_find(t.remove(i), k) == table_find(t, k),
    decreases t.len(),
{
    if i == t.len() - 1 {
        assert(t.remove(i) =~= t.drop_last());
    } else {
        lemma_find_remove(t.drop_last(), i, k);
        assert(t.remove(i).drop_last() =~= t.drop_last().remove(i));
        assert(t.remove(i).last() == t.last());
    }
}

proof fn lemma_map_agrees<W>(a: Seq<(Seq<char>, W)>, b: Seq<(Seq<char>, W)>, key: Seq<char>, v: W)
    requires
        forall|k: Seq<char>| k != key ==> #[trigger] table_find(a, k) == table_find(b, k),
    ensures
        entries_map(a).insert(key, v) == entries_map(b).insert(key, v),
{
    let ma = entries_map(a).insert(key, v);
    let mb = entries_map(b).insert(key, v);
    assert forall|k: Seq<char>| #[trigger] ma.contains_key(k) <==> mb.contains_key(k) by {
        if k != key {
            lemma_entries_map_find(a, k);
            lemma_entries_map_find(b, k);
            assert(table_find(a, k) == table_find(b, k));
        }
    }
    assert forall|k: Seq<char>| #[trigger] ma.contains_key(k) implies ma[k] == mb[k] by {
        if k != key {
            lemma_entries_map_find(a, k);
            lemma_entries_map_find(b, k);
            assert(table_find(a, k) == table_find(b, k));
        }
    }
    assert(ma =~= mb);
}

/// The schools by code.
#[derive(Debug)]
pub struct SchoolsConfig {
    schools: Vec<(String, School)>,
}

impl View for SchoolsConfig {
    type V = Map<Seq<char>, SchoolView>;

    closed spec fn view(&self) -> Map<Seq<char>, SchoolView> {
        entries_map(keyed_views(self.schools@))
    }
}

impl SchoolsConfig {
    #[verifier::type_invariant]
    closed spec fn wf(&self) -> bool {
        unique_keys(keyed_views(self.schools@))
    }

    /// No schools.
    pub fn new() -> (r: SchoolsConfig)
        ensures
            r@ == Map::<Seq<char>, SchoolView>::empty(),
    {
        let r = SchoolsConfig { schools: Vec::new() };
        proof {
            assert(keyed_views(r.schools@) =~= Seq::<(Seq<char>, SchoolView)>::empty());
        }
        r
    }

    /// Adds a school under `code`, replacing any school the code named before.
    pub fn insert(&mut self, code: String, school: School)
        ensures
            final(self)@ == old(self)@.insert(code@, school@),
    {
        proof {
            use_type_invariant(&*self);
        }
        let ghost old_entries = keyed_views(self.schools@);
        let ghost old_view = self@;
        proof {
            assert(old_view == entries_map(old_entries));
        }
        let mut i: usize = 0;
        while i < self.schools.len()
            invariant
                i <= self.schools.len(),
                old_entries == keyed_views(self.schools@),
                unique_keys(old_entries),
                forall|k: int| 0 <= k < i ==> old_entries[k].0 != code@,
            ensures
                i <= self.schools.len(),
                old_entries == keyed_views(self.schools@),
                forall|k: int| 0 <= k < i ==> old_entries[k].0 != code@,
                i < self.schools.len() ==> old_entries[i as int].0 == code@,
            decreases self.schools.len() - i,
        {
            if self.schools[i].0 == code {
                break;
            }
            i = i + 1;
        }
        let mut entries = Vec::new();
        std::mem::swap(&mut entries, &mut self.schools);
        if i < entries.len() {
            let ghost before = keyed_views(entries@);
            entries.remove(i);
            proof {
                assert(keyed_views(entries@) =~= before.remove(i as int));
            }
        }
        let ghost kept = keyed_views(entries@);
        proof {
            if i < old_entries.len() {
                assert(kept == old_entries.remove(i as int));
                assert forall|k: Seq<char>| k != code@ implies #[trigger] table_find(kept, k)
                    == table_find(old_entries, k) by {
                    lemma_find_remove(old_entries, i as int, k);
                }
                assert forall|k: int| 0 <= k < kept.len() implies kept[k].0 != code@ by {
                    if k < i {
                        assert(kept[k] == old_entries[k]);
                    } else {
                        assert(kept[k] == old_entries[k + 1]);
                        assert(old_entries[i as int].0 != old_entries[k + 1].0);
                    }
                }
            } else {
                assert(kept == old_entries);
            }
        }
        entries.push((code, school));
        proof {
            assert(keyed_views(entries@) =~= kept.push((code@, school@)));
            lemma_map_agrees(kept, old_entries, code@, school@);
            assert forall|a: int, b: int| 0 <= a < b < keyed_views(entries@).len() implies keyed_views(entries@)[a].0 != keyed_views(entries@)[b].0 by {
                if b < kept.len() {
                    if i < old_entries.len() {
                        let x = if a < i { a } else { a + 1 };
                        let y = if b < i { b } else { b + 1 };
                        assert(kept[a] == old_entries[x]);
                        assert(kept[b] == old_entries[y]);
                    }
                }
            }
        }
        let ghost new_entries = keyed_views(entries@);
        proof {
            assert(new_entries.drop_last() =~= kept);
            assert(entries_map(new_entries) == entries_map(kept).insert(code@, school@));
        }
        self.schools = entries;
        proof {
            assert(self@ == entries_map(new_entries));
        }
    }

    /// Whether no school is configured.
    pub fn is_empty(&self) -> (r: bool)
        ensures
            r == (self@ == Map::<Seq<char>, SchoolView>::empty()),
    {
        let ghost t = keyed_views(self.schools@);
        proof {
            if t.len() > 0 {
                assert(entries_map(t).contains_key(t.last().0));
                assert(!Map::<Seq<char>, SchoolView>::empty().contains_key(t.last().0));
            } else {
                assert(entries_map(t) =~= Map::<Seq<char>, SchoolView>::empty());
            }
        }
        self.schools.len() == 0
    }

    /// Accepts a parsed configuration only if it names at least one school.
    pub fn from_parsed(config: SchoolsConfig) -> (r: Result<SchoolsConfig, KronoxError>)
        ensures
            match r {
                Ok(c) => c@ == config@ && config@ != Map::<Seq<char>, SchoolView>::empty(),
                Err(e) => config@ == Map::<Seq<char>, SchoolView>::empty() && (e matches KronoxError::Config(m) && m@ == NO_SCHOOLS@),
            },
    {
        if config.is_empty() {
            Err(KronoxError::Config(NO_SCHOOLS.to_owned()))
        } else {
            Ok(config)
        }
    }

    /// The school that `code` names.
    pub fn get(&self, code: &str) -> (r: Option<&School>)
        ensures
            match r {
                Some(s) => self@.contains_key(code@) && self@[code@] == s@,
                None => !self@.contains_key(code@),
            },
    {
        let ghost t = keyed_views(self.schools@);
        let mut i: usize = self.schools.len();
        proof {
            assert(t.take(t.len() as int) =~= t);
        }
        while i > 0
            invariant
                i <= self.schools.len(),
                t == keyed_views(self.schools@),
                table_find(t, code@) == table_find(t.take(i as int), code@),
            decreases i,
        {
            let ghost pre = t.take(i as int);
            proof {
                assert(pre.last() == (self.schools@[i - 1].0@, self.schools@[i - 1].1@));
                assert(pre.drop_last() =~= t.take(i - 1));
            }
            if crate::text::str_eq(self.schools[i - 1].0.as_str(), code) {
                proof {
                    lemma_entries_map_find(t, code@);
                }
                return Some(&self.schools[i - 1].1);
            }
            i = i - 1;
        }
        proof {
            lemma_entries_map_find(t, code@);
        }
        None
    }

    /// The index of the last base URL of the school that `code` names.
    pub fn max_url_index(&self, code: &str) -> (r: Option<usize>)
        ensures
            match r {
                Some(n) => self@.contains_key(code@) && n == if self@[code@].urls.len() == 0 {
                    0
                } else {
                    self@[code@].urls.len() - 1
                },
                None => !self@.contains_key(code@),
            },
    {
        match self.get(code) {
            Some(school) => Some(school.urls.len().saturating_sub(1)),
            None => None,
        }
    }

    /// The configured school codes, each once.
    pub fn allowed(&self) -> (r: Vec<String>)
        ensures
            views(r@).no_duplicates(),
            forall|code: Seq<char>| #[trigger] views(r@).contains(code) <==> self@.contains_key(code),
    {
        proof {
            use_type_invariant(self);
        }
        let ghost t = keyed_views(self.schools@);
        let mut r: Vec<String> = Vec::new();
        let mut i: usize = 0;
        while i < self.schools.len()
            invariant
                i <= self.schools.len(),
                t == keyed_views(self.schools@),
                unique_keys(t),
                r@.len() == i,
                forall|k: int| 0 <= k < i ==> (#[trigger] r@[k])@ == t[k].0,
            decreases self.schools.len() - i,
        {
            r.push(self.schools[i].0.clone());
            i = i + 1;
        }
        proof {
            assert forall|a: int, b: int| 0 <= a < views(r@).len() && 0 <= b < views(r@).len() && a != b implies views(r@)[a] != views(r@)[b] by {
                assert(views(r@)[a] == r@[a]@);
                assert(views(r@)[b] == r@[b]@);
                if a < b {
                    assert(t[a].0 != t[b].0);
                } else {
                    assert(t[b].0 != t[a].0);
                }
            }
            assert forall|code: Seq<char>| #[trigger] views(r@).contains(code) <==> self@.contains_key(code) by {
                lemma_entries_map_keys(t, code);
                if views(r@).contains(code) {
                    let k = choose|k: int| 0 <= k < views(r@).len() && views(r@)[k] == code;
                    assert(views(r@)[k] == r@[k]@);
                }
                if exists|k: int| 0 <= k < t.len() && t[k].0 == code {
                    let k = choose|k: int| 0 <= k < t.len() && t[k].0 == code;
                    assert(views(r@)[k] == r@[k]@);
                }
            }
        }
        r
    }
}

/// Error message for a configuration without schools.
pub const NO_SCHOOLS: &'static str = "no schools configured";

} // verus!
