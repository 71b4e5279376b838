//! The pattern: a regular expression of the `regex` crate, compiled once and
//! then asked of each line whether it occurs in it.

use vstd::prelude::*;

verus! {

/// A compiled regular expression. Nothing inside it is visible here; it is
/// only built by [`compile`] and handed to [`is_match`].
#[verifier::external_type_specification]
#[verifier::external_body]
pub struct ExRegex(regex::Regex);

/// Why a pattern could not be compiled.
#[verifier::external_type_specification]
#[verifier::external_body]
pub struct ExRegexError(regex::Error);

/// What `regex::RegexBuilder` makes of the pattern `source`, asked to ignore
/// case or not: the compiled expression, or the reason why there is none.
pub uninterp spec fn compile_result(source: Seq<char>, insensitive: bool) -> Result<
    regex::Regex,
    regex::Error,
>;

/// Whether `regex::Regex::is_match` finds the expression somewhere in `text`.
pub uninterp spec fn regex_accepts(pattern: regex::Regex, text: Seq<char>) -> bool;

/// Calls `regex::RegexBuilder::new(source).case_insensitive(insensitive).build()`.
/// The contract gives the outcome its name and claims only that it depends
/// on the two arguments and on nothing else: an invalid or oversized pattern
/// is an `Err`, never a panic.
#[verifier::external_body]
pub(crate) fn compile(source: &str, insensitive: bool) -> (compiled: Result<
    regex::Regex,
    regex::Error,
>)
    ensures
        compiled == compile_result(source@, insensitive),
{
    regex::RegexBuilder::new(source).case_insensitive(insensitive).build()
}

/// Calls `regex::Regex::is_match`. The contract gives the answer its name and
/// claims only that it depends on the expression and on the text.
#[verifier::external_body]
pub(crate) fn is_match(pattern: &regex::Regex, text: &str) -> (found: bool)
    ensures
        found == regex_accepts(*pattern, text@),
{
    pattern.is_match(text)
}

/// Whether a line is kept: when it matches, unless the selection is
/// inverted, and then when it does not.
pub open spec fn selects(pattern: regex::Regex, invert: bool, line: Seq<char>) -> bool {
    regex_accepts(pattern, line) != invert
}

/// Decides whether `line` is kept.
pub fn line_selected(pattern: &regex::Regex, invert: bool, line: &str) -> (kept: bool)
    ensures
        kept == selects(*pattern, invert, line@),
{
    invert ^ is_match(pattern, line)
}

} // verus!
