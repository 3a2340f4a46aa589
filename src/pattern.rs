//! Regular-expression matching, provided by the `regex` crate.
//!
//! Patterns are handed over as text and compiled by the crate on each use, so
//! every result below is a function of the pattern and the haystack alone.
use vstd::prelude::*;

verus! {

/// Whether `regex` accepts `pattern`.
pub uninterp spec fn regex_valid(pattern: Seq<char>) -> bool;

/// The capture groups of the leftmost-first match of `pattern` in `text`
/// (group 0 is the whole match), or `None` when there is no match.
pub uninterp spec fn regex_captures(pattern: Seq<char>, text: Seq<char>) -> Option<
    Seq<Option<Seq<char>>>,
>;

/// The text `regex::escape` gives for `s`: every meta character preceded by a backslash.
pub uninterp spec fn regex_escaped(s: Seq<char>) -> Seq<char>;

/// What a capture returns for a pattern that may not compile.
pub open spec fn match_groups(pattern: Seq<char>, text: Seq<char>) -> Option<Seq<Option<Seq<char>>>> {
    if regex_valid(pattern) {
        regex_captures(pattern, text)
    } else {
        None
    }
}

pub open spec fn groups_view(g: Seq<Option<String>>) -> Seq<Option<Seq<char>>> {
    g.map_values(
        |o: Option<String>|
            match o {
                Some(s) => Some(s@),
                None => None,
            },
    )
}

/// Relies on `regex::Regex::new`: whether the pattern compiles.
#[verifier::external_body]
pub fn compiles(pattern: &str) -> (r: bool)
    ensures
        r == regex_valid(pattern@),
{
    regex::Regex::new(pattern).is_ok()
}

/// Relies on `regex::Regex::captures` (after `regex::Regex::new`): the groups
/// of the first match, each present or absent.
#[verifier::external_body]
pub fn captures(pattern: &str, text: &str) -> (r: Option<Vec<Option<String>>>)
    ensures
        match r {
            Some(g) => regex_valid(pattern@) && regex_captures(pattern@, text@) == Some(
                groups_view(g@),
            ),
            None => regex_valid(pattern@) ==> regex_captures(pattern@, text@) is None,
        },
{
    let re = regex::Regex::new(pattern).ok()?;
    let caps = re.captures(text)?;
    Some(caps.iter().map(|m| m.map(|m| m.as_str().to_string())).collect())
}

/// Relies on `regex::escape`: the pattern that matches `s` literally.
#[verifier::external_body]
pub fn escape(s: &str) -> (r: String)
    ensures
        r@ == regex_escaped(s@),
{
    regex::escape(s)
}

} // verus!
