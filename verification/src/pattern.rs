//! The two regular expressions of the scraper, run by the `regex` crate.
use vstd::prelude::*;

verus! {

/// Matches an HTML tag: `<`, then as few non-newline characters as possible,
/// then `>`.
pub const HTML_TAG_PATTERN: &'static str = "<.*?>";

/// Captures what follows `resurser=` up to the end of the text.
pub const RESURSER_PATTERN: &'static str = "resurser=(.*)$";

/// The index of the first `>` in `s` that no `\n` precedes, if there is one.
pub open spec fn tag_close(s: Seq<char>) -> Option<int>
    decreases s.len(),
{
    if s.len() == 0 {
        None
    } else if s[0] == '>' {
        Some(0)
    } else if s[0] == '\n' {
        None
    } else {
        match tag_close(s.drop_first()) {
            Some(i) => Some(i + 1),
            None => None,
        }
    }
}

/// `tag_close` gives an index of `s` that holds `>`.
pub proof fn lemma_tag_close_bound(s: Seq<char>)
    ensures
        tag_close(s) matches Some(i) ==> 0 <= i < s.len() && s[i] == '>',
    decreases s.len(),
{
    if s.len() > 0 && s[0] != '>' && s[0] != '\n' {
        lemma_tag_close_bound(s.drop_first());
    }
}

/// `s` with every match of `<.*?>` removed, as `Regex::replace_all` with an
/// empty replacement gives it: scanning from the left, a `<` starts a match
/// that ends at the first following `>` provided no `\n` comes before it;
/// the scan goes on after each match.
pub open spec fn strip_tags(s: Seq<char>) -> Seq<char>
    decreases s.len(),
{
    if s.len() == 0 {
        s
    } else if s[0] == '<' && tag_close(s.drop_first()) is Some {
        let i = tag_close(s.drop_first())->0;
        proof {
            lemma_tag_close_bound(s.drop_first());
        }
        strip_tags(s.skip(i + 2))
    } else {
        seq![s[0]] + strip_tags(s.drop_first())
    }
}

/// The characters `resurser=`.
pub open spec fn resurser_key() -> Seq<char> {
    seq!['r', 'e', 's', 'u', 'r', 's', 'e', 'r', '=']
}

/// The first capture group of `resurser=(.*)$` on `s`: what follows the
/// leftmost `resurser=` after which no `\n` occurs.
pub open spec fn resurser_value(s: Seq<char>) -> Option<Seq<char>>
    decreases s.len(),
{
    if s.len() < 9 {
        None
    } else if s.take(9) == resurser_key() && !s.skip(9).contains('\n') {
        Some(s.skip(9))
    } else {
        resurser_value(s.drop_first())
    }
}

/// Removes every match of `pattern` from `text` with `regex::Regex::replace_all`.
/// For the HTML tag pattern, the only one it is called with, the contract states
/// what the regex crate's leftmost-first, lazy matching removes.
#[verifier::external_body]
fn regex_remove_all(pattern: &str, text: &str) -> (r: Option<String>)
    requires
        pattern@ == HTML_TAG_PATTERN@,
    ensures
        match r {
            Some(s) => s@ == strip_tags(text@),
            None => false,
        },
{
    match regex::Regex::new(pattern) {
        Ok(re) => Some(re.replace_all(text, "").into_owned()),
        Err(_) => None,
    }
}

/// The first capture group of `pattern` on `text`, by `regex::Regex::captures`.
/// For the `resurser=` pattern, the only one it is called with, the contract
/// states which text the regex crate captures.
#[verifier::external_body]
fn regex_first_group(pattern: &str, text: &str) -> (r: Option<String>)
    requires
        pattern@ == RESURSER_PATTERN@,
    ensures
        match r {
            Some(s) => resurser_value(text@) == Some(s@),
            None => resurser_value(text@) is None,
        },
{
    match regex::Regex::new(pattern) {
        Ok(re) => match re.captures(text) {
            Some(caps) => match caps.get(1) {
                Some(m) => Some(m.as_str().to_owned()),
                None => None,
            },
            None => None,
        },
        Err(_) => None,
    }
}

/// `text` without HTML tags.
pub fn remove_html_tags(text: &str) -> (r: String)
    ensures
        r@ == strip_tags(text@),
{
    match regex_remove_all(HTML_TAG_PATTERN, text) {
        Some(s) => s,
        None => String::new(),
    }
}

/// The value of the `resurser=` parameter at the end of `href`, if any.
pub fn resurser_param(href: &str) -> (r: Option<String>)
    ensures
        match r {
            Some(s) => resurser_value(href@) == Some(s@),
            None => resurser_value(href@) is None,
        },
{
    regex_first_group(RESURSER_PATTERN, href)
}

} // verus!
