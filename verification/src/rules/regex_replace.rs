//! Regex-based find & replace.

use vstd::prelude::*;
use crate::error::{NomforgeError, Result};
use crate::pattern::{compile, error_text, regex_accepts, regex_replaced, replace_all};
use crate::rules::RenameContext;

verus! {

/// Replaces every match of `pattern` in the stem by `replacement` (which may
/// refer to capture groups as `$1` or `${1}`); an invalid pattern gives
/// `InvalidRegex` naming it.
pub fn apply_regex_replace(pattern: &str, replacement: &str, ctx: &RenameContext) -> (r: Result<String>)
    ensures
        r is Ok <==> regex_accepts(pattern@),
        r matches Ok(s) ==> s@ == regex_replaced(pattern@, ctx.stem@, replacement@),
        r matches Err(e) ==> (e matches NomforgeError::InvalidRegex { pattern: p, .. } && p@ == pattern@),
{
    match compile(pattern) {
        Ok(re) => Ok(replace_all(&re, ctx.stem.as_str(), replacement)),
        Err(e) => Err(NomforgeError::InvalidRegex { pattern: pattern.to_owned(), reason: error_text(&e) }),
    }
}

} // verus!
