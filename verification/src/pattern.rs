//! Regular expressions, as the regex crate reads and runs them.
use vstd::prelude::*;

use regex::Regex;

verus! {

/// Whether the regex crate accepts `pattern` as a regular expression.
pub uninterp spec fn regex_valid(pattern: Seq<char>) -> bool;

/// Whether the regular expression `pattern` is valid and matches somewhere in `text`.
pub uninterp spec fn regex_matches(pattern: Seq<char>, text: Seq<char>) -> bool;

/// `Regex::new(pattern).is_ok()`.
#[verifier::external_body]
pub(crate) fn regex_compiles(pattern: &str) -> (r: bool)
    ensures
        r == regex_valid(pattern@),
{
    Regex::new(pattern).is_ok()
}

/// `Regex::new(pattern)` followed by `Regex::is_match(text)`; false where the pattern is invalid.
#[verifier::external_body]
pub(crate) fn regex_is_match(pattern: &str, text: &str) -> (r: bool)
    ensures
        r == regex_matches(pattern@, text@),
        r ==> regex_valid(pattern@),
{
    match Regex::new(pattern) {
        Ok(re) => re.is_match(text),
        Err(_) => false,
    }
}

} // verus!
