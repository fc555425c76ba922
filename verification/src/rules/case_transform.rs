//! Case transformations.

use vstd::prelude::*;
use crate::error::Result;
use crate::rules::Case;
use crate::text::{chars_of, push_all, string_from_chars};
use crate::unicode::{alphanumeric, char_uppercase, is_alphanumeric, lowercase, to_lowercase, to_uppercase, upper_chars, uppercase};

verus! {

/// Title case of `s` when the next alphanumeric character is (`cap`) or is not
/// the first of a word: the first alphanumeric character after the start or
/// after any non-alphanumeric character is upper-cased, all else is kept.
pub open spec fn title_from(s: Seq<char>, cap: bool) -> Seq<char>
    decreases s.len(),
{
    if s.len() == 0 {
        Seq::<char>::empty()
    } else if is_alphanumeric(s[0]) {
        if cap {
            char_uppercase(s[0]) + title_from(s.drop_first(), false)
        } else {
            seq![s[0]] + title_from(s.drop_first(), false)
        }
    } else {
        seq![s[0]] + title_from(s.drop_first(), true)
    }
}

/// Title case of a whole string.
pub open spec fn title_cased(s: Seq<char>) -> Seq<char> {
    title_from(s, true)
}

/// The stem under a case transformation.
pub open spec fn case_applied(stem: Seq<char>, case: Case) -> Seq<char> {
    match case {
        Case::Upper => uppercase(stem),
        Case::Lower => lowercase(stem),
        Case::Title => title_cased(stem),
    }
}

/// Title-cases `s`.
pub fn title_case(s: &str) -> (r: String)
    ensures
        r@ == title_cased(s@),
{
    let cs = chars_of(s);
    let mut out: Vec<char> = Vec::new();
    let mut capitalize_next = true;
    let mut i: usize = 0;
    assert(cs@.skip(0) =~= cs@);
    while i < cs.len()
        invariant
            cs@ == s@,
            i <= cs@.len(),
            out@ + title_from(cs@.skip(i as int), capitalize_next) == title_cased(s@),
        decreases cs@.len() - i,
    {
        let c = cs[i];
        let ghost rest = cs@.skip(i as int);
        let ghost prev = out@;
        let ghost cap0 = capitalize_next;
        assert(rest.drop_first() =~= cs@.skip(i as int + 1));
        assert(rest[0] == c);
        if alphanumeric(c) {
            if capitalize_next {
                let up = upper_chars(c);
                push_all(&mut out, up.as_slice());
                capitalize_next = false;
            } else {
                out.push(c);
                capitalize_next = false;
            }
        } else {
            out.push(c);
            capitalize_next = true;
        }
        assert(out@ + title_from(cs@.skip(i as int + 1), capitalize_next) =~= prev + title_from(rest, cap0));
        i = i + 1;
    }
    assert(cs@.skip(i as int) =~= Seq::<char>::empty());
    assert(out@ + Seq::<char>::empty() =~= out@);
    string_from_chars(out.as_slice())
}

/// Applies a case transformation to the stem.
pub fn apply_case_transform(stem: &str, case: Case) -> (r: Result<String>)
    ensures
        r matches Ok(s) && s@ == case_applied(stem@, case),
{
    Ok(match case {
        Case::Upper => to_uppercase(stem),
        Case::Lower => to_lowercase(stem),
        Case::Title => title_case(stem),
    })
}

} // verus!
