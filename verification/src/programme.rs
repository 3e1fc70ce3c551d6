//! Reading programmes off a KronoX programme-search results page.
use vstd::prelude::*;

use crate::model::{Programme, ProgrammeView};
use crate::pattern::{resurser_param, resurser_value};
use crate::text::{
    char_views, chars_eq, chars_of, find_char, join, join_chars, lemma_find_char, split_once,
    split_once_chars, split_words, string_of, trim, trim_chars, words,
};

verus! {

/// The results of a search are the anchors that open in a new tab.
pub const RESULT_SELECTOR: &'static str = "a[target='_blank']";

/// The attribute of a result that carries the schedule id.
pub const LINK_ATTRIBUTE: &'static str = "href";

/// What scraper gives for the elements of the HTML document `html` that the
/// CSS selector `selector` matches, in document order: each element's
/// attribute `attribute` (if present) and its text (the concatenation of
/// its descendant text nodes); `None` where the selector does not parse.
pub uninterp spec fn selected_elements(
    html: Seq<char>,
    selector: Seq<char>,
    attribute: Seq<char>,
) -> Option<Seq<(Option<Seq<char>>, Seq<char>)>>;

/// An optional string taken by its view.
pub open spec fn option_view(o: Option<String>) -> Option<Seq<char>> {
    match o {
        Some(s) => Some(s@),
        None => None,
    }
}

/// Selected elements taken by their views.
pub open spec fn element_views(v: Seq<(Option<String>, String)>) -> Seq<(Option<Seq<char>>, Seq<char>)> {
    v.map_values(|p: (Option<String>, String)| (option_view(p.0), p.1@))
}

/// Parses `html` with `scraper::Html::parse_document`, selects with
/// `scraper::Selector::parse(selector)` and gives, for each selected element,
/// `value().attr(attribute)` and the collected `text()`. The contract names
/// scraper's result, and states that the results selector parses.
#[verifier::external_body]
fn select_elements(html: &str, selector: &str, attribute: &str) -> (r: Option<
    Vec<(Option<String>, String)>,
>)
    ensures
        match r {
            Some(v) => selected_elements(html@, selector@, attribute@) == Some(element_views(v@)),
            None => selected_elements(html@, selector@, attribute@) is None,
        },
        selector@ == RESULT_SELECTOR@ ==> r is Some,
{
    let parsed = match scraper::Selector::parse(selector) {
        Ok(s) => s,
        Err(_) => return None,
    };
    let document = scraper::Html::parse_document(html);
    let mut elements = Vec::new();
    for element in document.select(&parsed) {
        let link = match element.value().attr(attribute) {
            Some(a) => Some(a.to_owned()),
            None => None,
        };
        elements.push((link, element.text().collect::<String>()));
    }
    Some(elements)
}

/// The words of `ws`, each only at its first occurrence.
pub open spec fn first_occurrences(ws: Seq<Seq<char>>) -> Seq<Seq<char>>
    decreases ws.len(),
{
    if ws.len() == 0 {
        Seq::empty()
    } else {
        let d = first_occurrences(ws.drop_last());
        if d.contains(ws.last()) {
            d
        } else {
            d.push(ws.last())
        }
    }
}

/// `text` with repeated words dropped, the rest joined by single spaces.
pub open spec fn without_duplicate_words(text: Seq<char>) -> Seq<char> {
    join(first_occurrences(words(text)), seq![' '])
}

/// A subtitle keeps each of its words exactly once: the first occurrences
/// hold no word twice and the same words as the text.
pub proof fn lemma_first_occurrences(ws: Seq<Seq<char>>)
    ensures
        first_occurrences(ws).no_duplicates(),
        forall|w: Seq<char>| #[trigger] first_occurrences(ws).contains(w) <==> ws.contains(w),
    decreases ws.len(),
{
    if ws.len() > 0 {
        let rest = ws.drop_last();
        lemma_first_occurrences(rest);
        let d = first_occurrences(rest);
        assert forall|w: Seq<char>| #[trigger] first_occurrences(ws).contains(w) <==> ws.contains(w) by {
            if rest.contains(w) {
                let k = choose|k: int| 0 <= k < rest.len() && rest[k] == w;
                assert(ws[k] == w);
            }
            if ws.contains(w) {
                let k = choose|k: int| 0 <= k < ws.len() && ws[k] == w;
                if k < ws.len() - 1 {
                    assert(rest[k] == w);
                }
            }
            if !d.contains(ws.last()) {
                assert(d.push(ws.last())[d.len() as int] == ws.last());
                if d.push(ws.last()).contains(w) && w != ws.last() {
                    let k = choose|k: int| 0 <= k < d.len() + 1 && d.push(ws.last())[k] == w;
                    assert(d[k] == w);
                }
                if d.contains(w) {
                    let k = choose|k: int| 0 <= k < d.len() && d[k] == w;
                    assert(d.push(ws.last())[k] == w);
                }
            }
            assert(ws[ws.len() - 1] == ws.last());
        }
    }
}

fn contains_word(ws: &Vec<Vec<char>>, w: &Vec<char>) -> (r: bool)
    ensures
        r == char_views(ws@).contains(w@),
{
    let mut i: usize = 0;
    while i < ws.len()
        invariant
            i <= ws.len(),
            forall|k: int| 0 <= k < i ==> ws@[k]@ != w@,
        decreases ws.len() - i,
    {
        if chars_eq(&ws[i], w) {
            proof {
                assert(char_views(ws@)[i as int] == w@);
            }
            return true;
        }
        i = i + 1;
    }
    proof {
        if char_views(ws@).contains(w@) {
            let k = choose|k: int| 0 <= k < char_views(ws@).len() && char_views(ws@)[k] == w@;
            assert(ws@[k]@ == w@);
        }
    }
    false
}

/// `text` with every repeated word dropped (the first occurrence stays), the
/// words joined by single spaces.
pub fn remove_duplicate_words(text: &str) -> (r: String)
    ensures
        r@ == without_duplicate_words(text@),
{
    let chars = chars_of(text);
    let ws = split_words(&chars);
    let ghost all = char_views(ws@);
    let mut kept: Vec<Vec<char>> = Vec::new();
    let mut i: usize = 0;
    proof {
        assert(all.take(0) =~= Seq::<Seq<char>>::empty());
        assert(char_views(kept@) =~= first_occurrences(all.take(0)));
    }
    while i < ws.len()
        invariant
            i <= ws.len(),
            all == char_views(ws@),
            char_views(kept@) == first_occurrences(all.take(i as int)),
        decreases ws.len() - i,
    {
        proof {
            assert(all.take(i + 1).drop_last() =~= all.take(i as int));
            assert(all.take(i + 1).last() == ws@[i as int]@);
        }
        if !contains_word(&kept, &ws[i]) {
            let w = crate::text::slice_chars(&ws[i], 0, ws[i].len());
            let ghost before = kept@;
            kept.push(w);
            proof {
                assert(ws@[i as int]@.subrange(0, ws@[i as int]@.len() as int) =~= ws@[i as int]@);
                assert(char_views(kept@) =~= char_views(before).push(ws@[i as int]@));
            }
        }
        i = i + 1;
    }
    proof {
        assert(all.take(ws.len() as int) =~= all);
    }
    let space: Vec<char> = vec![' '];
    proof {
        assert(space@ =~= seq![' ']);
    }
    let joined = join_chars(&kept, &space);
    string_of(&joined)
}

/// The programme a search result describes: its id is the `resurser=` value
/// at the end of the link, its text is `"<title>, <subtitle>"` (split at the
/// first comma, each part trimmed, the subtitle without repeated words).
pub open spec fn programme_of(href: Option<Seq<char>>, text: Seq<char>) -> Option<ProgrammeView> {
    match href {
        None => None,
        Some(h) => match resurser_value(h) {
            None => None,
            Some(id) => match split_once(trim(text), ',') {
                None => None,
                Some(parts) => Some(
                    ProgrammeView {
                        id: id,
                        title: trim(parts.0),
                        subtitle: without_duplicate_words(trim(parts.1)),
                    },
                ),
            },
        },
    }
}

/// A search result describes a programme exactly when its link carries a
/// `resurser=` id and its trimmed text holds a comma; the programme's title is
/// then the whole trimmed text before the first comma, trimmed, and its
/// subtitle the text after that comma, trimmed, without repeated words.
pub proof fn lemma_programme_title(h: Seq<char>, text: Seq<char>)
    ensures
        (programme_of(Some(h), text) is Some) <==> (resurser_value(h) is Some && trim(
            text,
        ).contains(',')),
        forall|i: int|
            0 <= i < trim(text).len() && #[trigger] trim(text)[i] == ',' && (forall|k: int|
                0 <= k < i ==> trim(text)[k] != ',') && resurser_value(h) is Some ==> {
                &&& programme_of(Some(h), text) is Some
                &&& programme_of(Some(h), text)->0.id == resurser_value(h)->0
                &&& programme_of(Some(h), text)->0.title == trim(trim(text).take(i))
                &&& programme_of(Some(h), text)->0.subtitle == without_duplicate_words(
                    trim(trim(text).skip(i + 1)),
                )
            },
{
    let t = trim(text);
    lemma_find_char(t, ',');
    if t.contains(',') {
        let k = choose|k: int| 0 <= k < t.len() && t[k] == ',';
        assert(find_char(t, ',') is Some);
    }
    if find_char(t, ',') is Some {
        assert(t[find_char(t, ',')->0] == ',');
    }
    assert forall|i: int|
        0 <= i < t.len() && #[trigger] t[i] == ',' && (forall|k: int| 0 <= k < i ==> t[k] != ',')
            && resurser_value(h) is Some implies find_char(t, ',') == Some(i) by {
        let j = find_char(t, ',')->0;
        assert(find_char(t, ',') is Some);
        if j < i {
            assert(t[j] != ',');
        } else if i < j {
            assert(t[i] != ',');
        }
    }
}

/// The programmes of a sequence of search results, skipping results that do
/// not describe one.
pub open spec fn programmes_of(links: Seq<(Option<Seq<char>>, Seq<char>)>) -> Seq<ProgrammeView>
    decreases links.len(),
{
    if links.len() == 0 {
        Seq::empty()
    } else {
        let prev = programmes_of(links.drop_last());
        match programme_of(links.last().0, links.last().1) {
            Some(p) => prev.push(p),
            None => prev,
        }
    }
}

/// The views of a sequence of programmes.
pub open spec fn programme_views(s: Seq<Programme>) -> Seq<ProgrammeView> {
    s.map_values(|p: Programme| p@)
}

/// The programme one search result describes, from its link and its text.
pub fn parse_programme_link(href: Option<&str>, text: &str) -> (r: Option<Programme>)
    ensures
        match r {
            Some(p) => programme_of(
                match href {
                    Some(h) => Some(h@),
                    None => None,
                },
                text@,
            ) == Some(p@),
            None => programme_of(
                match href {
                    Some(h) => Some(h@),
                    None => None,
                },
                text@,
            ) is None,
        },
{
    let href = match href {
        Some(h) => h,
        None => return None,
    };
    let id = match resurser_param(href) {
        Some(id) => id,
        None => return None,
    };
    let chars = chars_of(text);
    let trimmed = trim_chars(&chars);
    let (title, subtitle) = match split_once_chars(&trimmed, ',') {
        Some(parts) => parts,
        None => return None,
    };
    let title = trim_chars(&title);
    let subtitle = trim_chars(&subtitle);
    let subtitle_text = string_of(&subtitle);
    Some(
        Programme {
            id,
            title: string_of(&title),
            subtitle: remove_duplicate_words(subtitle_text.as_str()),
        },
    )
}

/// Programmes from a KronoX programme-search results page: each result is an
/// `<a target="_blank">` whose `href` carries the schedule id in a
/// `resurser=` parameter and whose text is `"<title>, <subtitle>"`; the
/// page's navigation links have no `target="_blank"` and are not results.
pub fn parse_programmes(html: &str) -> (r: Vec<Programme>)
    ensures
        selected_elements(html@, RESULT_SELECTOR@, LINK_ATTRIBUTE@) is Some,
        programme_views(r@) == programmes_of(
            selected_elements(html@, RESULT_SELECTOR@, LINK_ATTRIBUTE@)->0,
        ),
{
    let mut r: Vec<Programme> = Vec::new();
    let links = match select_elements(html, RESULT_SELECTOR, LINK_ATTRIBUTE) {
        Some(links) => links,
        None => {
            proof {
                assert(programme_views(r@) =~= Seq::<ProgrammeView>::empty());
            }
            return r;
        },
    };
    let ghost lv = element_views(links@);
    let mut i: usize = 0;
    proof {
        assert(lv.take(0) =~= Seq::<(Option<Seq<char>>, Seq<char>)>::empty());
        assert(programme_views(r@) =~= programmes_of(lv.take(0)));
    }
    while i < links.len()
        invariant
            i <= links.len(),
            lv == element_views(links@),
            programme_views(r@) == programmes_of(lv.take(i as int)),
        decreases links.len() - i,
    {
        proof {
            assert(lv.take(i + 1).drop_last() =~= lv.take(i as int));
            assert(lv.take(i + 1).last() == lv[i as int]);
        }
        let (href, text) = &links[i];
        let href_str: Option<&str> = match href {
            Some(h) => Some(h.as_str()),
            None => None,
        };
        let ghost before = r@;
        match parse_programme_link(href_str, text.as_str()) {
            Some(p) => {
                r.push(p);
                proof {
                    assert(programme_views(r@) =~= programme_views(before).push(r@.last()@));
                }
            },
            None => {},
        }
        i = i + 1;
    }
    proof {
        assert(lv.take(links.len() as int) =~= lv);
    }
    r
}

} // verus!
