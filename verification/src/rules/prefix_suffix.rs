//! Prefix and suffix rules.

use vstd::prelude::*;
use crate::error::Result;
use crate::rules::RenameContext;
use crate::text::concat;

verus! {

/// Prepends `prefix` to the stem.
pub fn apply_prefix(prefix: &str, ctx: &RenameContext) -> (r: Result<String>)
    ensures
        r matches Ok(s) && s@ == prefix@ + ctx.stem@,
{
    Ok(concat(prefix, ctx.stem.as_str()))
}

/// Appends `suffix` to the stem.
pub fn apply_suffix(suffix: &str, ctx: &RenameContext) -> (r: Result<String>)
    ensures
        r matches Ok(s) && s@ == ctx.stem@ + suffix@,
{
    Ok(concat(ctx.stem.as_str(), suffix))
}

} // verus!
