//! The regex engine: the `regex` crate, behind contracts that are believed,
//! not proved.
//!
//! To the verifier a pattern is its source text: whether the engine accepts
//! it and with what words it rejects it, what it matches and what a
//! replacement yields are named results of that text. The compiled automaton
//! is not kept between calls, so that every call is a function of plain text.

use vstd::prelude::*;
use regex::Regex;

verus! {

/// The diagnostic with which `Regex::new` rejects `pattern`, as the error
/// displays it; `None` where `Regex::new` accepts `pattern`.
pub uninterp spec fn regex_error(pattern: Seq<char>) -> Option<Seq<char>>;

/// Whether the engine accepts `pattern`.
pub open spec fn regex_accepts(pattern: Seq<char>) -> bool {
    regex_error(pattern) is None
}

/// Whether the regex compiled from `pattern` matches somewhere in `haystack`.
pub uninterp spec fn regex_is_match(pattern: Seq<char>, haystack: Seq<char>) -> bool;

/// `haystack` with every non-overlapping match of the regex compiled from
/// `pattern` replaced by `replacement`, from left to right.
pub uninterp spec fn regex_replace_all(
    pattern: Seq<char>,
    haystack: Seq<char>,
    replacement: Seq<char>,
) -> Seq<char>;

/// `Regex::new`, keeping only what it says of a pattern that it rejects: the
/// text of the error, or `None` where the engine accepts `pattern`.
#[verifier::external_body]
pub(crate) fn regex_rejection(pattern: &str) -> (r: Option<String>)
    ensures
        match regex_error(pattern@) {
            Some(text) => r is Some && r->Some_0@ == text,
            None => r is None,
        },
{
    match Regex::new(pattern) {
        Ok(_) => None,
        Err(error) => Some(error.to_string()),
    }
}

/// `Regex::is_match` on the regex compiled from `pattern`: whether it matches
/// anywhere in `haystack`.
#[verifier::external_body]
pub(crate) fn regex_match(pattern: &str, haystack: &str) -> (b: bool)
    requires
        regex_accepts(pattern@),
    ensures
        b == regex_is_match(pattern@, haystack@),
{
    Regex::new(pattern).unwrap().is_match(haystack)
}

/// `Regex::replace_all` on the regex compiled from `pattern`: `haystack` with
/// every non-overlapping match replaced by `replacement`.
#[verifier::external_body]
pub(crate) fn regex_replace(pattern: &str, haystack: &str, replacement: &str) -> (out: String)
    requires
        regex_accepts(pattern@),
    ensures
        out@ == regex_replace_all(pattern@, haystack@, replacement@),
{
    Regex::new(pattern).unwrap().replace_all(haystack, replacement).into_owned()
}

} // verus!
