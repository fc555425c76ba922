//! Sequential numbering.

use vstd::prelude::*;
use crate::error::Result;
use crate::rules::{RenameContext, SeqPosition};
use crate::text::{chars_of, decimal, padded_decimal, push_all, string_from_chars, zero_padded};

verus! {

/// The number for the file at position `counter` when counting from `start`,
/// in decimal, zero-padded to `padding` digits.
pub open spec fn counter_text(start: nat, counter: nat, padding: nat) -> Seq<char> {
    zero_padded(decimal(start + counter), padding)
}

/// The stem with the number placed as `position` says.
pub open spec fn counter_applied(stem: Seq<char>, number: Seq<char>, position: SeqPosition) -> Seq<char> {
    match position {
        SeqPosition::Prefix => number + stem,
        SeqPosition::Suffix => stem + number,
        SeqPosition::ReplaceStem => number,
    }
}

/// Places the sequence number `start + ctx.counter`, zero-padded to at least
/// `padding` digits, before the stem, after it, or in its stead.
pub fn apply_counter(start: usize, padding: usize, position: SeqPosition, ctx: &RenameContext) -> (r: Result<String>)
    requires
        start + ctx.counter <= usize::MAX,
    ensures
        r matches Ok(s) && s@ == counter_applied(
            ctx.stem@,
            counter_text(start as nat, ctx.counter as nat, padding as nat),
            position,
        ),
{
    let num = start + ctx.counter;
    let padded = padded_decimal(num, padding);
    match position {
        SeqPosition::Prefix => {
            let mut v = padded;
            push_all(&mut v, chars_of(ctx.stem.as_str()).as_slice());
            Ok(string_from_chars(v.as_slice()))
        },
        SeqPosition::Suffix => {
            let mut v = chars_of(ctx.stem.as_str());
            push_all(&mut v, padded.as_slice());
            Ok(string_from_chars(v.as_slice()))
        },
        SeqPosition::ReplaceStem => Ok(string_from_chars(padded.as_slice())),
    }
}

} // verus!
