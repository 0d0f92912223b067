//! Searching a text for a regular expression.

use vstd::prelude::*;

verus! {

/// The span of the leftmost match of the regular expression `pattern` in
/// `text`, as the numbers of characters before its start and before its
/// end; `None` where the pattern is not a valid regular expression or
/// matches nowhere.
pub uninterp spec fn first_match(pattern: Seq<char>, text: Seq<char>) -> Option<(nat, nat)>;

/// Compiles `pattern` with `regex::Regex::new` and searches `text` with
/// `Regex::find`. The result is the span of the leftmost match, counted in
/// characters, and `None` where the pattern does not compile or does not
/// match. A match lies within the text, and its end is not before its
/// start.
#[verifier::external_body]
pub(crate) fn regex_find(pattern: &str, text: &str) -> (r: Option<(usize, usize)>)
    ensures
        match r {
            Some((start, end)) => first_match(pattern@, text@) == Some((start as nat, end as nat))
                && start <= end <= text@.len(),
            None => first_match(pattern@, text@) is None,
        },
{
    match regex::Regex::new(pattern) {
        Ok(re) => re.find(text).map(
            |m| (text[..m.start()].chars().count(), text[..m.end()].chars().count()),
        ),
        Err(_) => None,
    }
}

/// The spans of the matches of the regular expression `pattern` in `text`,
/// from left to right and without overlap, each as the numbers of
/// characters before its start and before its end; empty where the
/// pattern is not a valid regular expression.
pub uninterp spec fn all_matches(pattern: Seq<char>, text: Seq<char>) -> Seq<(nat, nat)>;

/// The spans as numbers of the model.
pub open spec fn spans_of(v: Seq<(usize, usize)>) -> Seq<(nat, nat)> {
    Seq::new(v.len(), |i: int| (v[i].0 as nat, v[i].1 as nat))
}

/// Compiles `pattern` with `regex::Regex::new` and walks the matches in
/// `text` with `Regex::find_iter`. The result holds the span of each match,
/// counted in characters, in the order in which they are found, and is
/// empty where the pattern does not compile. Each match lies within the
/// text, and its end is not before its start.
#[verifier::external_body]
pub(crate) fn regex_find_all(pattern: &str, text: &str) -> (r: Vec<(usize, usize)>)
    ensures
        spans_of(r@) == all_matches(pattern@, text@),
        forall|i: int| 0 <= i < r@.len() ==> (#[trigger] r@[i]).0 <= r@[i].1 <= text@.len(),
{
    match regex::Regex::new(pattern) {
        Ok(re) => re.find_iter(text).map(
            |m| (text[..m.start()].chars().count(), text[..m.end()].chars().count()),
        ).collect(),
        Err(_) => Vec::new(),
    }
}

} // verus!
