//! Searching a text with a regular expression.

use regex::Regex;
use vstd::prelude::*;

verus! {

/// Whether `pattern` is a regular expression that can be compiled.
pub uninterp spec fn regex_compiles(pattern: Seq<char>) -> bool;

/// What a search of `haystack` with `pattern` finds: of each match, from
/// left to right, the byte offsets where it starts and where it ends.
pub uninterp spec fn regex_matches(pattern: Seq<char>, haystack: Seq<char>) -> Seq<(usize, usize)>;

/// `Regex::find_iter` of the regex crate, on the regular expression that
/// `Regex::new` makes of `pattern`: the successive matches in `haystack`
/// that do not overlap, each as its `start` and its `end`. There is a
/// result where `Regex::new` accepts `pattern`, and only there.
#[verifier::external_body]
pub(crate) fn find_matches(pattern: &str, haystack: &str) -> (r: Option<Vec<(usize, usize)>>)
    ensures
        r.is_some() == regex_compiles(pattern@),
        r matches Some(spans) ==> spans@ == regex_matches(pattern@, haystack@),
{
    match Regex::new(pattern) {
        Ok(re) => Some(re.find_iter(haystack).map(|m| (m.start(), m.end())).collect()),
        Err(_) => None,
    }
}

/// What splitting `haystack` at the matches of `pattern` leaves: the pieces
/// between the matches, from left to right.
pub uninterp spec fn regex_split(pattern: Seq<char>, haystack: Seq<char>) -> Seq<Seq<char>>;

/// `Regex::split` of the regex crate, on the regular expression that
/// `Regex::new` makes of `pattern`: the pieces of `haystack` between the
/// matches, each copied into a string of its own. There is a result where
/// `Regex::new` accepts `pattern`, and only there.
#[verifier::external_body]
pub(crate) fn split_fields(pattern: &str, haystack: &str) -> (r: Option<Vec<String>>)
    ensures
        r.is_some() == regex_compiles(pattern@),
        r matches Some(fields) ==> fields.deep_view() == regex_split(pattern@, haystack@),
{
    match Regex::new(pattern) {
        Ok(re) => Some(re.split(haystack).map(|piece| piece.to_string()).collect()),
        Err(_) => None,
    }
}

/// The pattern that matches the first character of each word.
pub open spec fn word_start() -> Seq<char> {
    seq!['\\', 'b', '\\', 'w']
}

/// The pattern that matches the last character of each word.
pub open spec fn word_end() -> Seq<char> {
    seq!['\\', 'w', '\\', 'b']
}

/// The pattern that matches the first character of each word.
pub fn word_start_pattern() -> (p: &'static str)
    ensures
        p@ == word_start(),
{
    proof {
        reveal_strlit("\\b\\w");
    }
    "\\b\\w"
}

/// The pattern that matches the last character of each word.
pub fn word_end_pattern() -> (p: &'static str)
    ensures
        p@ == word_end(),
{
    proof {
        reveal_strlit("\\w\\b");
    }
    "\\w\\b"
}

} // verus!
