//! Regular expressions of the `regex` crate, as far as the command grammar
//! needs them.
//!
//! What the crate computes is not defined here. Each function of it that the
//! grammar calls has a name for its result, and the contracts below say no
//! more than that a call returns what its name stands for.

use regex::Regex;
use vstd::prelude::*;

verus! {

/// `regex::Regex`, a compiled regular expression.
#[verifier::external_type_specification]
#[verifier::external_body]
pub struct ExRegex(Regex);

/// What `Regex::new` makes of `pattern`: the compiled expression, or nothing
/// where the crate rejects the pattern.
pub uninterp spec fn compiled(pattern: Seq<char>) -> Option<Regex>;

/// What `Regex::is_match` answers: whether `re` has a match anywhere in
/// `haystack`.
pub uninterp spec fn regex_matches(re: Regex, haystack: Seq<char>) -> bool;

/// What `Regex::captures` finds for `re` in `haystack`: `None` without a
/// match, else one entry per capture group, in the order of the groups, with
/// the matched text of each group that took part in the match. Entry 0 is the
/// whole match.
pub uninterp spec fn regex_groups(re: Regex, haystack: Seq<char>) -> Option<
    Seq<Option<Seq<char>>>,
>;

/// Whether `pattern` compiles.
pub open spec fn pattern_valid(pattern: Seq<char>) -> bool {
    compiled(pattern) is Some
}

/// Whether `pattern` compiles and has a match anywhere in `haystack`.
pub open spec fn pattern_matches(pattern: Seq<char>, haystack: Seq<char>) -> bool {
    compiled(pattern) matches Some(re) && regex_matches(re, haystack)
}

/// The capture groups of the first match of `pattern` in `haystack`.
pub open spec fn pattern_groups(pattern: Seq<char>, haystack: Seq<char>) -> Option<
    Seq<Option<Seq<char>>>,
> {
    match compiled(pattern) {
        Some(re) => regex_groups(re, haystack),
        None => None,
    }
}

/// `Regex::new`: compiles `pattern`. An error of the crate, for a pattern
/// that is malformed or too large, comes back as `None`.
#[verifier::external_body]
pub(crate) fn compile(pattern: &str) -> (r: Option<Regex>)
    ensures
        r == compiled(pattern@),
{
    match Regex::new(pattern) {
        Ok(re) => Some(re),
        Err(_) => None,
    }
}

/// `Regex::is_match`: true exactly when the expression has a match anywhere
/// in `haystack`.
pub assume_specification[ Regex::is_match ](re: &Regex, haystack: &str) -> (b: bool)
    ensures
        b == regex_matches(*re, haystack@),
;

/// `Regex::captures`, with the groups of the first match copied out as owned
/// strings (`Captures::iter`, `Match::as_str`).
#[verifier::external_body]
pub(crate) fn captures(re: &Regex, haystack: &str) -> (r: Option<Vec<Option<String>>>)
    ensures
        r.deep_view() == regex_groups(*re, haystack@),
{
    re.captures(haystack).map(
        |found| found.iter().map(|group| group.map(|m| String::from(m.as_str()))).collect(),
    )
}

} // verus!
