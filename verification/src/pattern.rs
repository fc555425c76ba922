//! Regular expressions, compiled and run by the `regex` crate.
//!
//! What a pattern accepts, matches and replaces is named by spec functions of
//! the pattern text; a `CompiledPattern` is only ever built from its own text,
//! so its view is that text.

use vstd::prelude::*;

verus! {

#[verifier::external_type_specification]
#[verifier::external_body]
pub struct ExRegex(regex::Regex);

#[verifier::external_type_specification]
#[verifier::external_body]
pub struct ExRegexError(regex::Error);

/// Whether `regex::Regex::new` accepts the pattern.
pub uninterp spec fn regex_accepts(pattern: Seq<char>) -> bool;

/// What `Regex::replace_all` gives for the regex compiled from `pattern`,
/// the haystack and the replacement template.
pub uninterp spec fn regex_replaced(pattern: Seq<char>, haystack: Seq<char>, replacement: Seq<char>) -> Seq<char>;

/// What `Regex::is_match` answers for the regex compiled from `pattern`.
pub uninterp spec fn regex_matches(pattern: Seq<char>, haystack: Seq<char>) -> bool;

/// A regex together with the text it was compiled from.
pub struct CompiledPattern {
    re: regex::Regex,
    source: String,
}

impl View for CompiledPattern {
    type V = Seq<char>;

    closed spec fn view(&self) -> Seq<char> {
        self.source@
    }
}

/// `regex::Regex::new`: succeeds exactly when the pattern is accepted
/// (named `regex_accepts`), and the compiled pattern keeps its source text.
#[verifier::external_body]
pub(crate) fn compile(pattern: &str) -> (r: Result<CompiledPattern, regex::Error>)
    ensures
        r is Ok <==> regex_accepts(pattern@),
        r matches Ok(c) ==> c@ == pattern@,
{
    match regex::Regex::new(pattern) {
        Ok(re) => Ok(CompiledPattern { re, source: pattern.to_string() }),
        Err(e) => Err(e),
    }
}

/// `Regex::replace_all`: the result is named `regex_replaced` of the
/// pattern's text, the haystack and the replacement.
#[verifier::external_body]
pub(crate) fn replace_all(c: &CompiledPattern, haystack: &str, replacement: &str) -> (r: String)
    ensures
        r@ == regex_replaced(c@, haystack@, replacement@),
{
    c.re.replace_all(haystack, replacement).into_owned()
}

/// `Regex::is_match`: the answer is named `regex_matches` of the pattern's
/// text and the haystack.
#[verifier::external_body]
pub(crate) fn is_match(c: &CompiledPattern, haystack: &str) -> (r: bool)
    ensures
        r == regex_matches(c@, haystack@),
{
    c.re.is_match(haystack)
}

/// The message of a compile error (its `Display` text); nothing is claimed of
/// the text.
#[verifier::external_body]
pub(crate) fn error_text(e: &regex::Error) -> String {
    e.to_string()
}

} // verus!
