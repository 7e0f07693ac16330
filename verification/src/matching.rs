//! Regular expressions, as the `regex` crate matches them.
//!
//! What a pattern matches in a text is decided by that crate alone. The two
//! functions below make the calls; their results are named, not restated.

use crate::chars::views;
use regex::Regex;
use vstd::prelude::*;

verus! {

/// The successive non-overlapping matches of `pattern` in `text`, from left to
/// right, or `None` where `pattern` does not compile.
pub uninterp spec fn regex_find_all(pattern: Seq<char>, text: Seq<char>) -> Option<Seq<Seq<char>>>;

/// Whether `pattern` matches anywhere in `text`, or `None` where `pattern` does
/// not compile.
pub uninterp spec fn regex_is_match(pattern: Seq<char>, text: Seq<char>) -> Option<bool>;

/// The views of the strings that a search gave.
pub open spec fn found_views(found: Option<Vec<String>>) -> Option<Seq<Seq<char>>> {
    match found {
        Some(v) => Some(views(v@)),
        None => None,
    }
}

/// Trusted: compiles `pattern` with `regex::Regex::new` and collects the text of
/// each match that `Regex::find_iter` yields on `text`, in order. The contract
/// claims only that this depends on the two strings alone: `regex_find_all`
/// names it.
#[verifier::external_body]
pub(crate) fn find_all(pattern: &str, text: &str) -> (r: Option<Vec<String>>)
    ensures
        found_views(r) == regex_find_all(pattern@, text@),
{
    match Regex::new(pattern) {
        Ok(re) => {
            let mut found: Vec<String> = Vec::new();
            for m in re.find_iter(text) {
                found.push(m.as_str().to_string());
            }
            Some(found)
        },
        Err(_) => None,
    }
}

/// Trusted: compiles `pattern` with `regex::Regex::new` and asks
/// `Regex::is_match` whether it matches somewhere in `text`. The contract claims
/// only that this depends on the two strings alone: `regex_is_match` names it.
#[verifier::external_body]
pub(crate) fn is_match(pattern: &str, text: &str) -> (r: Option<bool>)
    ensures
        r == regex_is_match(pattern@, text@),
{
    match Regex::new(pattern) {
        Ok(re) => Some(re.is_match(text)),
        Err(_) => None,
    }
}

} // verus!
