//! Removal of a substring.

use vstd::prelude::*;
use crate::error::Result;
use crate::rules::RenameContext;
use crate::text::{replace_text, replaced};

verus! {

/// Deletes every occurrence of `text` from the stem (an empty `text` removes
/// nothing).
pub fn apply_remove_text(text: &str, ctx: &RenameContext) -> (r: Result<String>)
    ensures
        r matches Ok(s) && s@ == replaced(ctx.stem@, text@, Seq::<char>::empty()),
{
    let empty = String::new();
    Ok(replace_text(ctx.stem.as_str(), text, empty.as_str()))
}

} // verus!
