//! Extension changes.

use vstd::prelude::*;
use crate::error::{NomforgeError, Result};
use crate::text::{chars_of, contains_char, contains_text, has_substring, same_text, string_from_chars};

verus! {

/// Why an extension is unsafe, if it is: it contains a path separator (`/` or
/// `\`), a parent directory reference (`..` itself, `/..`, `\..` or `..\`),
/// or a null byte; checked in that order.
pub open spec fn extension_problem(ext: Seq<char>) -> Option<Seq<char>> {
    if ext.contains('/') || ext.contains('\\') {
        Some("contains path separator"@)
    } else if ext == ".."@ || has_substring(ext, "/.."@) || has_substring(ext, "\\.."@)
        || has_substring(ext, "..\\"@) {
        Some("contains parent directory reference"@)
    } else if ext.contains('\0') {
        Some("contains null byte"@)
    } else {
        None
    }
}

/// The error for an unsafe extension.
pub open spec fn invalid_extension(e: NomforgeError, ext: Seq<char>, reason: Seq<char>) -> bool {
    e matches NomforgeError::InvalidExtension { ext: x, reason: why } && x@ == ext && why@ == reason
}

fn reason(text: &str) -> (r: String)
    ensures
        r@ == text@,
{
    string_from_chars(chars_of(text).as_slice())
}

/// Checks that an extension is safe.
fn validate_extension(ext: &str) -> (r: Result<()>)
    ensures
        match extension_problem(ext@) {
            None => r is Ok,
            Some(why) => r matches Err(e) && invalid_extension(e, ext@, why),
        },
{
    if contains_char(ext, '/') || contains_char(ext, '\\') {
        return Err(NomforgeError::InvalidExtension { ext: ext.to_owned(), reason: reason("contains path separator") });
    }
    if same_text(ext, "..") || contains_text(ext, "/..") || contains_text(ext, "\\..") || contains_text(ext, "..\\") {
        return Err(
            NomforgeError::InvalidExtension {
                ext: ext.to_owned(),
                reason: reason("contains parent directory reference"),
            },
        );
    }
    if contains_char(ext, '\0') {
        return Err(NomforgeError::InvalidExtension { ext: ext.to_owned(), reason: reason("contains null byte") });
    }
    Ok(())
}

/// Determines the new extension (without dot): `None` keeps `current_ext`,
/// `Some("")` removes it, `Some(ext)` changes it after checking that `ext`
/// is safe.
pub fn apply_extension(current_ext: &str, new_ext: &Option<String>) -> (r: Result<String>)
    ensures
        match new_ext {
            None => r matches Ok(s) && s@ == current_ext@,
            Some(e) => match extension_problem(e@) {
                Some(why) if e@.len() > 0 => r matches Err(err) && invalid_extension(err, e@, why),
                _ => r matches Ok(s) && s@ == e@,
            },
        },
{
    match new_ext {
        None => Ok(current_ext.to_owned()),
        Some(ext) => {
            if ext.as_str().is_empty() {
                Ok(String::new())
            } else {
                validate_extension(ext.as_str())?;
                Ok(ext.clone())
            }
        },
    }
}

} // verus!
