//! Regular expressions.

use vstd::prelude::*;

use crate::text;

verus! {

/// What `Regex::captures` of the `regex` crate finds in a text: the groups of the
/// leftmost match, each with the text that it matched. It depends on the pattern
/// and the text alone.
pub uninterp spec fn captures_of(pattern: Seq<char>, text: Seq<char>) -> Option<
    Seq<Option<Seq<char>>>,
>;

/// The texts of a list of groups.
pub open spec fn group_texts(groups: Seq<Option<String>>) -> Seq<Option<Seq<char>>> {
    Seq::new(groups.len(), |i: int| text::opt_text(groups[i]))
}

/// The groups of a match as texts.
pub open spec fn captured(captures: Option<Vec<Option<String>>>) -> Option<Seq<Option<Seq<char>>>> {
    match captures {
        Some(groups) => Some(group_texts(groups@)),
        None => None,
    }
}

/// The text of group `i`; none where there was no match or the group took no
/// part in it.
pub open spec fn group(captures: Option<Seq<Option<Seq<char>>>>, i: int) -> Option<Seq<char>> {
    match captures {
        Some(groups) => if 0 <= i < groups.len() {
            groups[i]
        } else {
            None
        },
        None => None,
    }
}

/// Calls `lazy_regex::Regex::new` (the `Regex` of the `regex` crate) and
/// `Regex::captures`. The groups come in order, the whole match first, each as
/// the text that it matched or none where it took no part. Claimed is only that
/// the result is determined by the pattern and the text; what a pattern matches
/// is left unsaid, as is what comes of a pattern that does not compile.
#[verifier::external_body]
pub(crate) fn find_captures(pattern: &str, text: &str) -> (r: Option<Vec<Option<String>>>)
    ensures
        captured(r) == captures_of(pattern@, text@),
{
    let captures = lazy_regex::Regex::new(pattern).ok()?.captures(text)?;
    Some(captures.iter().map(|group| group.map(|m| m.as_str().to_string())).collect())
}

/// The text of group `i` of a match.
pub fn group_text(captures: &Option<Vec<Option<String>>>, i: usize) -> (r: Option<String>)
    ensures
        text::opt_text(r) == group(captured(*captures), i as int),
{
    match captures {
        Some(groups) => if i < groups.len() {
            match &groups[i] {
                Some(s) => Some(s.clone()),
                None => None,
            }
        } else {
            None
        },
        None => None,
    }
}

/// The text of the first group of what `pattern` matches in `text`.
pub fn first_group(pattern: &str, text: &str) -> (r: Option<String>)
    ensures
        text::opt_text(r) == group(captures_of(pattern@, text@), 1),
{
    group_text(&find_captures(pattern, text), 1)
}

/// A text, or the empty one where there is none.
pub open spec fn or_empty(s: Option<Seq<char>>) -> Seq<char> {
    match s {
        Some(s) => s,
        None => Seq::<char>::empty(),
    }
}

/// The text of the first group of what `pattern` matches in `text`; empty where
/// there is none.
pub fn extract_from_regex(pattern: &str, text: &str) -> (r: String)
    ensures
        r@ == or_empty(group(captures_of(pattern@, text@), 1)),
{
    match first_group(pattern, text) {
        Some(s) => s,
        None => String::new(),
    }
}

/// A group of a match is what was captured for it; where nothing was, or there is no such
/// group, it is missing.
pub proof fn group_is_what_was_captured(groups: Seq<Option<Seq<char>>>, i: int)
    ensures
        0 <= i < groups.len() ==> group(Some(groups), i) == groups[i],
        i < 0 || i >= groups.len() ==> group(Some(groups), i) is None,
        group(None, i) is None,
        or_empty(None).len() == 0,
        0 <= i < groups.len() && groups[i] is Some ==> or_empty(groups[i]) == groups[i]->0,
{
}

} // verus!
