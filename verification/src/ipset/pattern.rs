//! Regular expressions of the regex crate, as far as the library uses them.
//!
//! A compiled expression is an opaque value here. What the library knows of
//! one is what this file states, and none of it is proved: it is taken from
//! the documentation and the source of the regex crate.

use regex::Regex;
use vstd::prelude::*;

verus! {

/// `regex::Regex`: a compiled regular expression.
#[verifier::external_type_specification]
#[verifier::external_body]
pub struct ExRegex(Regex);

/// `regex::Error`: why a pattern was not compiled.
#[verifier::external_type_specification]
#[verifier::external_body]
pub struct ExRegexError(regex::Error);

/// What `Regex::is_match` returns for an expression and a text: whether the
/// expression matches somewhere in the text.
pub uninterp spec fn regex_is_match(re: Regex, haystack: Seq<char>) -> bool;

/// What `Regex::as_str` returns for an expression: the pattern that the
/// expression was compiled from.
pub uninterp spec fn regex_pattern(re: Regex) -> Seq<char>;

/// Compiles a pattern with `Regex::new`. It fails on a pattern with a syntax
/// error and on one whose program would exceed the size limit of the regex
/// crate; nothing is claimed of when that is. The expression that it returns
/// keeps the pattern it was given.
#[verifier::external_body]
pub(crate) fn compile(pattern: &str) -> (r: Result<Regex, regex::Error>)
    ensures
        r matches Ok(re) ==> regex_pattern(re) == pattern@,
{
    Regex::new(pattern)
}

/// Searches a text with `Regex::is_match`, which tells whether the expression
/// matches anywhere in the text. The answer depends on the expression and the
/// text alone.
#[verifier::external_body]
pub(crate) fn is_match(re: &Regex, haystack: &str) -> (b: bool)
    ensures
        b == regex_is_match(*re, haystack@),
{
    re.is_match(haystack)
}

/// Reads the pattern of an expression with `Regex::as_str`, which returns the
/// string that the expression was compiled from.
#[verifier::external_body]
pub(crate) fn pattern_of(re: &Regex) -> (s: &str)
    ensures
        s@ == regex_pattern(*re),
{
    re.as_str()
}

} // verus!
