//! Regular expressions, by their source text.

use regex::RegexBuilder;
use vstd::prelude::*;

verus! {

/// The pattern compiles as a regular expression of `regex`, with or without
/// regard to case.
pub uninterp spec fn pattern_compiles(pattern: Seq<char>, case_insensitive: bool) -> bool;

/// The pattern, compiled by `regex`, matches somewhere in the text.
pub uninterp spec fn pattern_matches(
    pattern: Seq<char>,
    case_insensitive: bool,
    text: Seq<char>,
) -> bool;

/// `RegexBuilder::build` compiles the pattern given to `RegexBuilder::new`
/// with the case setting of `case_insensitive`, and returns an error where
/// the pattern is no valid expression or is too large.
#[verifier::external_body]
pub(crate) fn compiles(pattern: &str, case_insensitive: bool) -> (yes: bool)
    ensures
        yes == pattern_compiles(pattern@, case_insensitive),
{
    RegexBuilder::new(pattern).case_insensitive(case_insensitive).build().is_ok()
}

/// `Regex::is_match` is true if and only if the expression matches anywhere
/// in the text; the expression is compiled as in `compiles`, and `None`
/// stands for a pattern that does not compile.
#[verifier::external_body]
pub(crate) fn is_match(pattern: &str, case_insensitive: bool, text: &str) -> (found: Option<bool>)
    ensures
        found is Some <==> pattern_compiles(pattern@, case_insensitive),
        found is Some ==> found->0 == pattern_matches(pattern@, case_insensitive, text@),
{
    match RegexBuilder::new(pattern).case_insensitive(case_insensitive).build() {
        Ok(regex) => Some(regex.is_match(text)),
        Err(_) => None,
    }
}

} // verus!
