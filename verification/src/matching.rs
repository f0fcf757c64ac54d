//! Regular-expression matching, done by the `regex` crate.
use vstd::prelude::*;
use crate::text::views;

verus! {

/// What compiling `pattern` with `regex::Regex::new` and asking `is_match` on
/// `text` gives: `None` where the pattern does not compile, else whether the
/// regular expression matches somewhere in the text.
pub uninterp spec fn regex_match(pattern: Seq<char>, text: Seq<char>) -> Option<bool>;

/// What compiling `pattern` with `regex::Regex::new` and collecting `find_iter`
/// over `text` gives: `None` where the pattern does not compile, else the
/// successive non-overlapping leftmost-first matches, as text.
pub uninterp spec fn regex_all_matches(pattern: Seq<char>, text: Seq<char>) -> Option<
    Seq<Seq<char>>,
>;

/// Compiles `pattern` (`regex::Regex::new`) and tests `text` with `Regex::is_match`.
/// The result is named `regex_match` of the two arguments; nothing more is stated.
#[verifier::external_body]
pub(crate) fn regex_is_match(pattern: &str, text: &str) -> (r: Option<bool>)
    ensures
        r == regex_match(pattern@, text@),
{
    match regex::Regex::new(pattern) {
        Ok(re) => Some(re.is_match(text)),
        Err(_) => None,
    }
}

/// Compiles `pattern` (`regex::Regex::new`) and collects the text of every match
/// that `Regex::find_iter` yields over `text`. The result is named
/// `regex_all_matches` of the two arguments; nothing more is stated.
#[verifier::external_body]
pub(crate) fn regex_find_all(pattern: &str, text: &str) -> (r: Option<Vec<String>>)
    ensures
        match r {
            Some(v) => regex_all_matches(pattern@, text@) == Some(views(v@)),
            None => regex_all_matches(pattern@, text@) is None,
        },
{
    match regex::Regex::new(pattern) {
        Ok(re) => Some(re.find_iter(text).map(|m| m.as_str().to_string()).collect()),
        Err(_) => None,
    }
}

/// The pattern compiles and matches the text.
pub open spec fn pattern_matches(pattern: Seq<char>, text: Seq<char>) -> bool {
    regex_match(pattern, text) == Some(true)
}

/// Whether the pattern compiles and matches the text.
pub fn is_match(pattern: &str, text: &str) -> (b: bool)
    ensures
        b == pattern_matches(pattern@, text@),
{
    match regex_is_match(pattern, text) {
        Some(b) => b,
        None => false,
    }
}

} // verus!
