//! Plain text find & replace.

use vstd::prelude::*;
use crate::error::Result;
use crate::rules::RenameContext;
use crate::text::{replace_text, replaced};

verus! {

/// Replaces every occurrence of `find` in the stem by `replace` (plain text,
/// no regex; an empty `find` inserts `replace` around every character).
pub fn apply_find_replace(find: &str, replace: &str, ctx: &RenameContext) -> (r: Result<String>)
    ensures
        r matches Ok(s) && s@ == replaced(ctx.stem@, find@, replace@),
{
    Ok(replace_text(ctx.stem.as_str(), find, replace))
}

} // verus!
