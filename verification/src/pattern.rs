//! Matching and replacing by regular expressions.
//!
//! The work is done by the `regex` crate. What it returns is not proved here:
//! the two functions that call it are believed to return what the crate
//! returns, and the callers are verified against that.

use vstd::prelude::*;

verus! {

/// Why a text could not be rewritten.
#[derive(Debug, Clone, Copy, PartialEq, Eq, Structural)]
pub enum PatternError {
    /// A pattern was not accepted as a regular expression.
    Rejected,
}

/// The error of the `regex` crate, carried through and never looked into.
#[verifier::external_type_specification]
#[verifier::external_body]
pub struct ExRegexError(regex::Error);

/// The text that `regex::Regex::replace_all` returns for the expression that
/// `regex::Regex::new` builds from `pattern`, the haystack `text` and the
/// replacement string `replacement`; `None` where `pattern` is not accepted.
pub uninterp spec fn regex_replace_all(
    pattern: Seq<char>,
    text: Seq<char>,
    replacement: Seq<char>,
) -> Option<Seq<char>>;

/// What `regex::Regex::is_match` returns for the expression that
/// `regex::Regex::new` builds from `pattern` and the haystack `text`; `None`
/// where `pattern` is not accepted.
pub uninterp spec fn regex_is_match(pattern: Seq<char>, text: Seq<char>) -> Option<bool>;

/// Calls `regex::Regex::new` on the pattern and `regex::Regex::replace_all`
/// on the result. The contract claims only that the outcome is the one that
/// `regex_replace_all` names: the same three texts always give the same
/// outcome, an error exactly where the pattern is not accepted.
#[verifier::external_body]
fn replace_all(pattern: &str, text: &str, replacement: &str) -> (r: Result<
    String,
    regex::Error,
>)
    ensures
        match r {
            Ok(replaced) => regex_replace_all(pattern@, text@, replacement@) == Some(replaced@),
            Err(_) => regex_replace_all(pattern@, text@, replacement@) is None,
        },
{
    match regex::Regex::new(pattern) {
        Ok(expression) => Ok(expression.replace_all(text, replacement).into_owned()),
        Err(e) => Err(e),
    }
}

/// Calls `regex::Regex::new` on the pattern and `regex::Regex::is_match` on
/// the result. The contract claims only that the outcome is the one that
/// `regex_is_match` names.
#[verifier::external_body]
fn is_match(pattern: &str, text: &str) -> (r: Result<bool, regex::Error>)
    ensures
        match r {
            Ok(found) => regex_is_match(pattern@, text@) == Some(found),
            Err(_) => regex_is_match(pattern@, text@) is None,
        },
{
    match regex::Regex::new(pattern) {
        Ok(expression) => Ok(expression.is_match(text)),
        Err(e) => Err(e),
    }
}

/// Replaces every match of the pattern in the text by the replacement, in
/// which `$` followed by a group's number in braces stands for what the group
/// matched and `$$` for one `$`.
pub fn rewrite(pattern: &str, text: &str, replacement: &str) -> (r: Result<String, PatternError>)
    ensures
        match regex_replace_all(pattern@, text@, replacement@) {
            Some(replaced) => r is Ok && r.unwrap()@ == replaced,
            None => r == Err::<String, PatternError>(PatternError::Rejected),
        },
{
    match replace_all(pattern, text, replacement) {
        Ok(replaced) => Ok(replaced),
        Err(_) => Err(PatternError::Rejected),
    }
}

/// Whether the pattern matches anywhere in the text.
pub fn has_match(pattern: &str, text: &str) -> (r: Result<bool, PatternError>)
    ensures
        match regex_is_match(pattern@, text@) {
            Some(found) => r == Ok::<bool, PatternError>(found),
            None => r == Err::<bool, PatternError>(PatternError::Rejected),
        },
{
    match is_match(pattern, text) {
        Ok(found) => Ok(found),
        Err(_) => Err(PatternError::Rejected),
    }
}

} // verus!
