//! The boundary to the `regex` crate.
//!
//! What a pattern matches is not stated here: it is given a name, and the
//! two operations that the library performs with patterns are declared to
//! return what the name stands for. Nothing in this file is proved: each
//! contract is a claim about `regex`.

use vstd::prelude::*;

verus! {

/// Whether the regular expression `pattern` matches somewhere in `text`, as
/// `regex::Regex::is_match` finds it; `None` where `regex::Regex::new` does
/// not accept the pattern.
pub uninterp spec fn regex_is_match(pattern: Seq<char>, text: Seq<char>) -> Option<bool>;

/// The capture groups of the leftmost match of the regular expression
/// `pattern` in `text`, as `regex::Regex::captures` finds them: the whole
/// match first, then each group of the pattern in order, absent where the
/// group took no part in the match. The inner `None` stands for no match,
/// the outer for a pattern that `regex::Regex::new` does not accept.
pub uninterp spec fn regex_captures(pattern: Seq<char>, text: Seq<char>) -> Option<
    Option<Seq<Option<Seq<char>>>>,
>;

/// `regex::Regex::new` followed by `regex::Regex::is_match`.
#[verifier::external_body]
pub(crate) fn is_match(pattern: &str, text: &str) -> (r: Option<bool>)
    ensures
        r == regex_is_match(pattern@, text@),
{
    match regex::Regex::new(pattern) {
        Ok(re) => Some(re.is_match(text)),
        Err(_) => None,
    }
}

/// `regex::Regex::new` followed by `regex::Regex::captures`, with the text
/// of each group copied out.
#[verifier::external_body]
pub(crate) fn captures(pattern: &str, text: &str) -> (r: Option<Option<Vec<Option<String>>>>)
    ensures
        r.deep_view() == regex_captures(pattern@, text@),
{
    match regex::Regex::new(pattern) {
        Ok(re) => Some(
            re.captures(text).map(
                |found|
                    found.iter().map(|group| group.map(|m| m.as_str().to_string())).collect(),
            ),
        ),
        Err(_) => None,
    }
}

} // verus!
