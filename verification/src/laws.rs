//! What holds of the library as a whole: rule chaining, conflict reports,
//! name fitting, undo, and how the text rules relate.

use vstd::prelude::*;
use crate::conflict::{conflicts_for, conflicts_upto, first_with_target};
use crate::display::{kept_chars, stem_room, truncated_stem};
use crate::engine::{chained, planned_name, RenamePlan};
use crate::rules::{rule_stem, RenameRule, RuleModel};
use crate::rules::case_transform::title_cased;
use crate::unicode::{char_uppercase, is_alphanumeric};
use crate::gui::{state_rules, State};
use crate::cli::{requested_rules, RenameArgs};
use crate::rules::counter::counter_text;
use crate::text::{decimal, digit_char, has_substring, lemma_utf8_len_concat, occurs_at, replaced, utf8_len, utf8_width};
use crate::engine::RenameResult;
use crate::error::Result;
use crate::host::HostCall;
use crate::undo::{load_asked, log_asked, logged_moves, moves_clean, renames_asked, revert_asked, run_moves, undo_moves, UndoBatch, UndoLog};

verus! {

// ---------------------------------------------------------------------------
// Rule chaining
// ---------------------------------------------------------------------------

/// Chaining rules is sequential: applying `a` followed by `b` is applying
/// `b` to what `a` gives.
pub proof fn law_rules_chain(a: Seq<RenameRule>, b: Seq<RenameRule>, stem: Seq<char>, ext: Seq<char>, counter: nat)
    ensures
        chained(a + b, stem, ext, counter) == chained(
            b,
            chained(a, stem, ext, counter).0,
            chained(a, stem, ext, counter).1,
            counter,
        ),
    decreases a.len(),
{
    if a.len() == 0 {
        assert(a + b =~= b);
    } else {
        assert((a + b).drop_first() =~= a.drop_first() + b);
        assert((a + b)[0] == a[0]);
        law_rules_chain(
            a.drop_first(),
            b,
            rule_stem(a[0], stem, counter),
            crate::engine::rule_extension(a[0], ext),
            counter,
        );
    }
}

// ---------------------------------------------------------------------------
// The text rules
// ---------------------------------------------------------------------------

/// Removing a text is replacing it with nothing.
pub proof fn law_remove_is_replace_with_nothing(text: String, nothing: String, stem: Seq<char>, counter: nat)
    requires
        nothing@.len() == 0,
    ensures
        rule_stem(RenameRule::RemoveText(text), stem, counter) == rule_stem(
            RenameRule::FindReplace { find: text, replace: nothing },
            stem,
            counter,
        ),
{
    assert(nothing@ =~= Seq::<char>::empty());
}

/// A prefix and a suffix can be added in either order.
pub proof fn law_prefix_suffix_commute(prefix: String, suffix: String, stem: Seq<char>, counter: nat)
    ensures
        rule_stem(RenameRule::Suffix(suffix), rule_stem(RenameRule::Prefix(prefix), stem, counter), counter)
            == rule_stem(RenameRule::Prefix(prefix), rule_stem(RenameRule::Suffix(suffix), stem, counter), counter),
{
    assert(prefix@ + stem + suffix@ =~= prefix@ + (stem + suffix@));
}

/// Replacing a non-empty text that does not occur changes nothing.
pub proof fn law_absent_text_unchanged(s: Seq<char>, pat: Seq<char>, rep: Seq<char>)
    requires
        pat.len() > 0,
        !has_substring(s, pat),
    ensures
        replaced(s, pat, rep) == s,
    decreases s.len(),
{
    if s.len() > 0 {
        assert(!occurs_at(s, pat, 0));
        assert forall|i: int| !occurs_at(s.drop_first(), pat, i) by {
            if occurs_at(s.drop_first(), pat, i) {
                assert(s.subrange(i + 1, i + 1 + pat.len()) =~= s.drop_first().subrange(i, i + pat.len()));
                assert(occurs_at(s, pat, i + 1));
            }
        }
        law_absent_text_unchanged(s.drop_first(), pat, rep);
        assert(seq![s[0]] + s.drop_first() =~= s);
    }
}

// ---------------------------------------------------------------------------
// Sequence numbers
// ---------------------------------------------------------------------------

/// The number a string of decimal digits spells.
spec fn digits_value(s: Seq<char>) -> int
    decreases s.len(),
{
    if s.len() == 0 {
        0
    } else {
        digits_value(s.drop_last()) * 10 + (s.last() as int - 48)
    }
}

proof fn lemma_decimal_facts(n: nat)
    ensures
        decimal(n).len() >= 1,
        digits_value(decimal(n)) == n,
        decimal(n)[0] == '0' ==> n == 0,
    decreases n,
{
    if n < 10 {
        assert(decimal(n) == seq![digit_char(n)]);
        assert(seq![digit_char(n)].drop_last() =~= Seq::<char>::empty());
        assert(digit_char(n) as int == 48 + n);
        assert(digits_value(seq![digit_char(n)].drop_last()) == 0);
    } else {
        lemma_decimal_facts(n / 10);
        let d = decimal(n / 10);
        assert(decimal(n) == d.push(digit_char(n % 10)));
        assert(d.push(digit_char(n % 10)).drop_last() =~= d);
        assert(digit_char(n % 10) as int == 48 + n % 10);
        assert(decimal(n)[0] == d[0]);
        assert((n / 10) * 10 + n % 10 == n) by (nonlinear_arith);
        assert(digits_value(d.push(digit_char(n % 10))) == digits_value(d) * 10 + n % 10);
    }
}

/// Different files get different sequence numbers: whatever the start and
/// the padding, the numbers of positions `i` and `j` differ when `i` and `j`
/// do.
pub proof fn law_counter_numbers_distinct(start: nat, i: nat, j: nat, padding: nat)
    requires
        i != j,
    ensures
        counter_text(start, i, padding) != counter_text(start, j, padding),
{
    let a = start + i;
    let b = start + j;
    lemma_decimal_facts(a);
    lemma_decimal_facts(b);
    let da = decimal(a);
    let db = decimal(b);
    let pa = counter_text(start, i, padding);
    let pb = counter_text(start, j, padding);
    if pa == pb {
        if da.len() >= padding && db.len() >= padding {
            assert(da == db);
        } else if da.len() < padding && db.len() >= padding {
            assert(pa[0] == '0');
            assert(db[0] == pb[0]);
            assert(db == seq![digit_char(0)]);
        } else if da.len() >= padding && db.len() < padding {
            assert(pb[0] == '0');
            assert(da[0] == pa[0]);
            assert(da == seq![digit_char(0)]);
        } else if da.len() == db.len() {
            let w = padding as int;
            assert(da =~= pa.subrange(w - da.len(), w));
            assert(db =~= pb.subrange(w - db.len(), w));
        } else if da.len() < db.len() {
            let w = padding as int;
            assert(pb[w - db.len()] == db[0]);
            assert(pa[w - db.len()] == '0');
            assert(db == seq![digit_char(0)]);
        } else {
            let w = padding as int;
            assert(pa[w - da.len()] == da[0]);
            assert(pb[w - da.len()] == '0');
            assert(da == seq![digit_char(0)]);
        }
    }
}

// ---------------------------------------------------------------------------
// Fitting names to the file name limit
// ---------------------------------------------------------------------------

proof fn lemma_kept_bytes(s: Seq<char>, avail: int)
    ensures
        kept_chars(s, avail) <= s.len(),
        utf8_len(s.take(kept_chars(s, avail) as int)) <= (if avail > 0 { avail } else { 0 }),
    decreases s.len(),
{
    if s.len() == 0 || utf8_width(s[0]) > avail {
        assert(s.take(0) =~= Seq::<char>::empty());
    } else {
        let rest = s.drop_first();
        let w = utf8_width(s[0]);
        lemma_kept_bytes(rest, avail - w);
        let k = kept_chars(s, avail);
        assert(s.take(k as int) =~= seq![s[0]] + rest.take(k - 1));
        lemma_utf8_len_concat(seq![s[0]], rest.take(k - 1));
        assert(utf8_len(seq![s[0]]) == w) by {
            reveal_with_fuel(utf8_len, 2);
            assert(seq![s[0]].drop_first() =~= Seq::<char>::empty());
        }
    }
}

/// A name built from a fitted stem fits the limit of 255 bytes, provided
/// the extension leaves room for a dot and the `..` marker; a stem that
/// already fits is left as it is.
pub proof fn law_truncated_name_fits(stem: Seq<char>, ext: Seq<char>)
    requires
        utf8_len(ext) + (if ext.len() == 0 { 0int } else { 1int }) + 2 <= 255,
    ensures
        utf8_len(planned_name(truncated_stem(stem, ext), ext)) <= 255,
        utf8_len(planned_name(stem, ext)) <= 255 ==> truncated_stem(stem, ext) == stem,
{
    let room = stem_room(ext);
    let t = truncated_stem(stem, ext);
    let dots = seq!['.', '.'];
    assert(utf8_len(dots) == 2) by {
        reveal_with_fuel(utf8_len, 3);
        assert(dots.drop_first() =~= seq!['.']);
        assert(dots.drop_first().drop_first() =~= Seq::<char>::empty());
    }
    assert(utf8_len(seq!['.']) == 1) by {
        reveal_with_fuel(utf8_len, 2);
        assert(seq!['.'].drop_first() =~= Seq::<char>::empty());
    }
    if utf8_len(stem) > room {
        lemma_kept_bytes(stem, room - 2);
        let kept = stem.take(kept_chars(stem, room - 2) as int);
        lemma_utf8_len_concat(kept, dots);
    }
    if ext.len() > 0 {
        lemma_utf8_len_concat(t, seq!['.']);
        lemma_utf8_len_concat(t + seq!['.'], ext);
        lemma_utf8_len_concat(stem, seq!['.']);
        lemma_utf8_len_concat(stem + seq!['.'], ext);
    }
}

// ---------------------------------------------------------------------------
// Conflicts
// ---------------------------------------------------------------------------

proof fn lemma_first_with_target(plans: Seq<RenamePlan>, t: Seq<char>, lo: int, hi: int)
    requires
        0 <= lo <= hi <= plans.len(),
    ensures
        ({
            let f = first_with_target(plans, t, lo, hi);
            &&& f == -1 <==> forall|k: int| lo <= k < hi ==> #[trigger] plans[k].target@ != t
            &&& f != -1 ==> lo <= f < hi && plans[f].target@ == t
            &&& f != -1 ==> forall|k: int| lo <= k < f ==> #[trigger] plans[k].target@ != t
        }),
    decreases hi - lo,
{
    if lo < hi {
        lemma_first_with_target(plans, t, lo + 1, hi);
    }
}

proof fn lemma_conflicts_upto_grow(plans: Seq<RenamePlan>, exists: Seq<bool>, j: int, n: int)
    requires
        0 <= j < n,
    ensures
        forall|c| conflicts_for(plans, exists, j).contains(c) ==> #[trigger] conflicts_upto(plans, exists, n).contains(c),
    decreases n,
{
    let here = conflicts_upto(plans, exists, n);
    assert(here == conflicts_upto(plans, exists, n - 1) + conflicts_for(plans, exists, n - 1));
    if j < n - 1 {
        lemma_conflicts_upto_grow(plans, exists, j, n - 1);
    }
    assert forall|c| conflicts_for(plans, exists, j).contains(c) implies #[trigger] here.contains(c) by {
        let prev = conflicts_upto(plans, exists, n - 1);
        let last = conflicts_for(plans, exists, n - 1);
        if j < n - 1 {
            assert(prev.contains(c));
            let k = choose|k: int| 0 <= k < prev.len() && prev[k] == c;
            assert(here[k] == c);
        } else {
            let k = choose|k: int| 0 <= k < last.len() && last[k] == c;
            assert(here[prev.len() + k] == c);
        }
    }
}

/// Two plans that rename onto the same path are reported: the later one is
/// paired, as a duplicate target, with the first plan that has that target.
pub proof fn law_duplicate_targets_reported(plans: Seq<RenamePlan>, exists: Seq<bool>, i: int, j: int)
    requires
        exists.len() == plans.len(),
        0 <= i < j < plans.len(),
        plans[i].target@ == plans[j].target@,
    ensures
        exists|k: int|
            0 <= k <= i && plans[k].target@ == plans[j].target@ && #[trigger] conflicts_upto(
                plans,
                exists,
                plans.len() as int,
            ).contains((k, j, true, plans[j].target@)),
{
    let t = plans[j].target@;
    lemma_first_with_target(plans, t, 0, j);
    let k = first_with_target(plans, t, 0, j);
    assert(plans[i].target@ == t);
    assert(k != -1);
    assert(k <= i) by {
        if k > i {
            assert(plans[i].target@ != t);
        }
    }
    let here = conflicts_for(plans, exists, j);
    assert(here.contains((k, j, true, t))) by {
        assert(here[here.len() - 1] == (k, j, true, t));
    }
    lemma_conflicts_upto_grow(plans, exists, j, plans.len() as int);
    assert(conflicts_upto(plans, exists, plans.len() as int).contains((k, j, true, t)));
}

/// A plan that renames onto a path found to exist is reported.
pub proof fn law_taken_targets_reported(plans: Seq<RenamePlan>, exists: Seq<bool>, i: int)
    requires
        exists.len() == plans.len(),
        0 <= i < plans.len(),
        exists[i],
        plans[i].source@ != plans[i].target@,
    ensures
        conflicts_upto(plans, exists, plans.len() as int).contains((i, i, false, plans[i].target@)),
{
    let here = conflicts_for(plans, exists, i);
    assert(here[0] == (i, i, false, plans[i].target@));
    lemma_conflicts_upto_grow(plans, exists, i, plans.len() as int);
}

/// Every reported conflict is real: a duplicate target pairs an earlier plan
/// with a later one that has the same target, and a taken target is a plan
/// that renames onto a path found to exist.
pub proof fn law_conflicts_are_real(plans: Seq<RenamePlan>, exists: Seq<bool>, n: int)
    requires
        exists.len() == plans.len(),
        0 <= n <= plans.len(),
    ensures
        forall|k: int|
            0 <= k < conflicts_upto(plans, exists, n).len() ==> {
                let c = #[trigger] conflicts_upto(plans, exists, n)[k];
                &&& 0 <= c.0 <= c.1 < n
                &&& c.3 == plans[c.1].target@
                &&& c.2 ==> c.0 < c.1 && plans[c.0].target@ == c.3
                &&& !c.2 ==> c.0 == c.1 && exists[c.1] && plans[c.1].source@ != c.3
            },
    decreases n,
{
    if n > 0 {
        law_conflicts_are_real(plans, exists, n - 1);
        let i = n - 1;
        lemma_first_with_target(plans, plans[i].target@, 0, i);
        let prev = conflicts_upto(plans, exists, n - 1);
        let here = conflicts_upto(plans, exists, n);
        assert(here == prev + conflicts_for(plans, exists, i));
        assert forall|k: int| 0 <= k < here.len() implies {
            let c = #[trigger] here[k];
            &&& 0 <= c.0 <= c.1 < n
            &&& c.3 == plans[c.1].target@
            &&& c.2 ==> c.0 < c.1 && plans[c.0].target@ == c.3
            &&& !c.2 ==> c.0 == c.1 && exists[c.1] && plans[c.1].source@ != c.3
        } by {
            if k < prev.len() {
                assert(here[k] == prev[k]);
            }
        }
    }
}

/// Plans with distinct targets, none of which renames onto a path found to
/// exist, have no conflicts.
pub proof fn law_no_conflicts_without_collisions(plans: Seq<RenamePlan>, exists: Seq<bool>, n: int)
    requires
        exists.len() == plans.len(),
        0 <= n <= plans.len(),
        forall|i: int, j: int| 0 <= i < j < plans.len() ==> plans[i].target@ != plans[j].target@,
        forall|i: int| 0 <= i < plans.len() && #[trigger] exists[i] ==> plans[i].source@ == plans[i].target@,
    ensures
        conflicts_upto(plans, exists, n).len() == 0,
    decreases n,
{
    if n > 0 {
        law_no_conflicts_without_collisions(plans, exists, n - 1);
        let i = n - 1;
        lemma_first_with_target(plans, plans[i].target@, 0, i);
        assert(first_with_target(plans, plans[i].target@, 0, i) == -1) by {
            assert forall|k: int| 0 <= k < i implies #[trigger] plans[k].target@ != plans[i].target@ by {}
        }
        assert(conflicts_for(plans, exists, i) =~= Seq::empty());
    }
}

// ---------------------------------------------------------------------------
// Undo
// ---------------------------------------------------------------------------

/// A batch recorded in the undo log is the one the next undo takes, and
/// taking it leaves the log as it was.
pub proof fn law_record_then_take(batches: Seq<UndoBatch>, batch: UndoBatch)
    ensures
        batches.push(batch).len() > 0,
        batches.push(batch).last() == batch,
        batches.push(batch).drop_last() == batches,
{
    assert(batches.push(batch).drop_last() =~= batches);
}

proof fn lemma_run_moves_append<V>(
    fs: Map<Seq<char>, V>,
    a: Seq<(Seq<char>, Seq<char>)>,
    b: Seq<(Seq<char>, Seq<char>)>,
)
    ensures
        run_moves(fs, a + b) == run_moves(run_moves(fs, a), b),
    decreases b.len(),
{
    if b.len() == 0 {
        assert(a + b =~= a);
    } else {
        assert((a + b).drop_last() =~= a + b.drop_last());
        assert((a + b).last() == b.last());
        lemma_run_moves_append(fs, a, b.drop_last());
    }
}

/// Undoing a batch restores the files: when each rename of a batch found its
/// source present and its target free, renaming each target back to its
/// source, last rename first, gives back the files as they were.
pub proof fn law_undo_restores<V>(fs: Map<Seq<char>, V>, moves: Seq<(Seq<char>, Seq<char>)>)
    requires
        moves_clean(fs, moves),
    ensures
        run_moves(run_moves(fs, moves), undo_moves(moves)) == fs,
    decreases moves.len(),
{
    if moves.len() > 0 {
        let m = moves.drop_last();
        let x = moves.last();
        let fs1 = run_moves(fs, m);
        let fs2 = run_moves(fs, moves);
        law_undo_restores(fs, m);
        let back = seq![(x.1, x.0)];
        assert(undo_moves(moves) =~= back + undo_moves(m)) by {
            assert(moves.reverse() =~= seq![x] + m.reverse());
        }
        lemma_run_moves_append(fs2, back, undo_moves(m));
        let fs3 = run_moves(fs2, back);
        assert(back.drop_last() =~= Seq::<(Seq<char>, Seq<char>)>::empty());
        assert(run_moves(fs2, back.drop_last()) == fs2);
        assert(back.last() == (x.1, x.0));
        assert(fs3 == crate::undo::moved(fs2, (x.1, x.0)));
        assert(fs3 =~= fs1);
    }
}

/// Undo reverts what was logged: when the renames of `results` were logged
/// at `path`, and a later revert at `path` reads back the log that the
/// logging stored, it asks to move each renamed file back, the last renamed
/// first, and stores the log as it was before the logging.
pub proof fn law_revert_undoes_logged(
    path: Seq<char>,
    results: Seq<RenameResult>,
    logging: Seq<HostCall>,
    stored: Result<()>,
    reverting: Seq<HostCall>,
    r: Result<usize>,
)
    requires
        logged_moves(results).len() > 0,
        log_asked(path, results, logging, stored),
        stored is Ok,
        logging.len() > 0,
        logging.last() is WriteLog,
        reverting.len() >= 2,
        reverting[0] == (HostCall::Exists { path, answer: true }),
        reverting[1] == (HostCall::ReadLog { path, answer: Ok(logging.last()->WriteLog_log) }),
        revert_asked(path, reverting, r),
    ensures
        reverting.len() == logged_moves(results).len() + 3,
        renames_asked(undo_moves(logged_moves(results)), reverting.subrange(2, reverting.len() - 1)),
        exists|cut: int, before: Result<UndoLog>|
            #[trigger] load_asked(path, logging.take(cut), before) && (before matches Ok(l) && (reverting.last() matches HostCall::WriteLog { log, .. } && log.batches@ == l.batches@)),
{
    let w = logging.last()->WriteLog_log;
    let (cut, loaded) = choose|cut: int, loaded: Result<UndoLog>|
        0 <= cut <= logging.len() && #[trigger] load_asked(path, logging.take(cut), loaded) && match loaded {
            Err(e) => cut == logging.len() && stored == Err::<(), crate::error::NomforgeError>(e),
            Ok(l) => logging.len() == cut + 1 && (logging.last() matches HostCall::WriteLog { path: p, log: w, answer }
                && p == path && crate::undo::logged_onto(l, w, results) && crate::undo::write_result(answer, stored)),
        };
    let (rcut, rloaded) = choose|rcut: int, rloaded: Result<UndoLog>|
        0 <= rcut <= reverting.len() && #[trigger] load_asked(path, reverting.take(rcut), rloaded) && match rloaded {
            Err(e) => rcut == reverting.len() && r == Err::<usize, crate::error::NomforgeError>(e),
            Ok(l) => if l.batches@.len() == 0 {
                rcut == reverting.len() && (r matches Err(crate::error::NomforgeError::UndoLog(m)) && m@ == "No undo history found"@)
            } else {
                let moves = undo_moves(crate::undo::moves_of(l.batches@.last().operations@));
                let back = reverting.subrange(rcut, rcut + moves.len());
                &&& reverting.len() == rcut + moves.len() + 1
                &&& renames_asked(moves, back)
                &&& reverting.last() matches HostCall::WriteLog { path: p, log: w, answer } && p == path
                    && w.batches@ == l.batches@.drop_last() && match answer {
                    None => r matches Ok(n) && n == crate::undo::renames_done(back),
                    Some(why) => r matches Err(crate::error::NomforgeError::UndoLog(x)) && x@ == why,
                }
            },
        };
    assert(reverting.take(rcut)[0] == reverting[0]);
    assert(rcut == 2);
    assert(reverting.take(rcut)[1] == reverting[1]);
    assert(rloaded == Ok::<UndoLog, crate::error::NomforgeError>(w));
    assert(loaded is Ok);
    assert(w.batches@.last()@.1 == logged_moves(results));
    assert(undo_moves(logged_moves(results)).len() == logged_moves(results).len());
}

/// Undo takes one batch off the log: when a revert at `path` succeeds, a
/// later load at `path` that reads back the log the revert stored finds one
/// batch fewer than the revert found.
pub proof fn law_revert_takes_one_batch(
    path: Seq<char>,
    reverting: Seq<HostCall>,
    r: Result<usize>,
    loading: Seq<HostCall>,
    after: Result<UndoLog>,
)
    requires
        revert_asked(path, reverting, r),
        r is Ok,
        reverting.len() > 0,
        reverting.last() is WriteLog,
        loading.len() >= 2,
        loading[0] == (HostCall::Exists { path, answer: true }),
        loading[1] == (HostCall::ReadLog { path, answer: Ok(reverting.last()->WriteLog_log) }),
        load_asked(path, loading, after),
    ensures
        exists|cut: int, before: Result<UndoLog>|
            #[trigger] load_asked(path, reverting.take(cut), before) && (before matches Ok(b) && (after matches Ok(a)
                && a.batches@.len() + 1 == b.batches@.len())),
{
    let (cut, before) = choose|cut: int, loaded: Result<UndoLog>|
        0 <= cut <= reverting.len() && #[trigger] load_asked(path, reverting.take(cut), loaded) && match loaded {
            Err(e) => cut == reverting.len() && r == Err::<usize, crate::error::NomforgeError>(e),
            Ok(l) => if l.batches@.len() == 0 {
                cut == reverting.len() && (r matches Err(crate::error::NomforgeError::UndoLog(m)) && m@ == "No undo history found"@)
            } else {
                let moves = undo_moves(crate::undo::moves_of(l.batches@.last().operations@));
                let back = reverting.subrange(cut, cut + moves.len());
                &&& reverting.len() == cut + moves.len() + 1
                &&& renames_asked(moves, back)
                &&& reverting.last() matches HostCall::WriteLog { path: p, log: w, answer } && p == path
                    && w.batches@ == l.batches@.drop_last() && match answer {
                    None => r matches Ok(n) && n == crate::undo::renames_done(back),
                    Some(why) => r matches Err(crate::error::NomforgeError::UndoLog(x)) && x@ == why,
                }
            },
        };
    assert(before is Ok);
}

// ---------------------------------------------------------------------------
// Title case
// ---------------------------------------------------------------------------

proof fn lemma_title_word_rest(w: Seq<char>)
    requires
        forall|i: int| 0 <= i < w.len() ==> is_alphanumeric(#[trigger] w[i]),
    ensures
        crate::rules::case_transform::title_from(w, false) == w,
    decreases w.len(),
{
    if w.len() > 0 {
        let r = w.drop_first();
        assert forall|i: int| 0 <= i < r.len() implies is_alphanumeric(#[trigger] r[i]) by {
            assert(r[i] == w[i + 1]);
        }
        lemma_title_word_rest(r);
        assert(seq![w[0]] + r =~= w);
    }
}

/// Title case of a word upper-cases its first character only: in a run of
/// alphanumeric characters (letters and digits alike), every character
/// after the first is kept as it is.
pub proof fn law_title_word(w: Seq<char>)
    requires
        w.len() > 0,
        forall|i: int| 0 <= i < w.len() ==> is_alphanumeric(#[trigger] w[i]),
    ensures
        title_cased(w) == char_uppercase(w[0]) + w.drop_first(),
{
    let r = w.drop_first();
    assert forall|i: int| 0 <= i < r.len() implies is_alphanumeric(#[trigger] r[i]) by {
        assert(r[i] == w[i + 1]);
    }
    lemma_title_word_rest(r);
}

proof fn lemma_title_split(a: Seq<char>, u: char, b: Seq<char>, cap: bool)
    requires
        !is_alphanumeric(u),
    ensures
        crate::rules::case_transform::title_from(a + seq![u] + b, cap) == crate::rules::case_transform::title_from(a, cap)
            + seq![u] + title_cased(b),
    decreases a.len(),
{
    let t = a + seq![u] + b;
    if a.len() == 0 {
        assert(t =~= seq![u] + b);
        assert(t.drop_first() =~= b);
    } else {
        assert(t[0] == a[0]);
        assert(t.drop_first() =~= a.drop_first() + seq![u] + b);
        let next = !is_alphanumeric(a[0]);
        lemma_title_split(a.drop_first(), u, b, next);
        if is_alphanumeric(a[0]) {
            if cap {
                assert(crate::rules::case_transform::title_from(t, cap) =~= char_uppercase(a[0]) + (
                crate::rules::case_transform::title_from(a.drop_first(), false) + seq![u] + title_cased(b)));
            } else {
                assert(crate::rules::case_transform::title_from(t, cap) =~= seq![a[0]] + (
                crate::rules::case_transform::title_from(a.drop_first(), false) + seq![u] + title_cased(b)));
            }
        } else {
            assert(crate::rules::case_transform::title_from(t, cap) =~= seq![a[0]] + (
            crate::rules::case_transform::title_from(a.drop_first(), true) + seq![u] + title_cased(b)));
        }
    }
}

/// Words start after separators: title-casing a text with a
/// non-alphanumeric character in it title-cases what precedes it and what
/// follows it on their own, keeping the separator.
pub proof fn law_title_separator(a: Seq<char>, u: char, b: Seq<char>)
    requires
        !is_alphanumeric(u),
    ensures
        title_cased(a + seq![u] + b) == title_cased(a) + seq![u] + title_cased(b),
{
    lemma_title_split(a, u, b, true);
}

// ---------------------------------------------------------------------------
// Rule order
// ---------------------------------------------------------------------------

/// Where a kind of rule stands in a rule list that the front ends build:
/// find/replace, regex, prefix, suffix, removal, case, sequence number,
/// extension change.
pub open spec fn rule_rank(m: RuleModel) -> int {
    match m {
        RuleModel::FindReplace { .. } => 0,
        RuleModel::RegexReplace { .. } => 1,
        RuleModel::Prefix(_) => 2,
        RuleModel::Suffix(_) => 3,
        RuleModel::RemoveText(_) => 4,
        RuleModel::CaseTransform(_) => 5,
        RuleModel::NumberSequence { .. } => 6,
        RuleModel::ChangeExtension { .. } => 7,
    }
}

/// Each rule's kind stands later than the kinds before it.
pub open spec fn ranks_rise(x: Seq<RuleModel>) -> bool {
    forall|i: int, j: int| 0 <= i < j < x.len() ==> rule_rank(x[i]) < rule_rank(x[j])
}

proof fn lemma_rise_add(a: Seq<RuleModel>, b: Seq<RuleModel>, k: int)
    requires
        ranks_rise(a),
        forall|i: int| 0 <= i < a.len() ==> rule_rank(#[trigger] a[i]) < k,
        b.len() <= 1,
        forall|j: int| 0 <= j < b.len() ==> rule_rank(#[trigger] b[j]) == k,
    ensures
        ranks_rise(a + b),
        forall|i: int| 0 <= i < (a + b).len() ==> rule_rank(#[trigger] (a + b)[i]) <= k,
{
    assert forall|i: int, j: int| 0 <= i < j < (a + b).len() implies rule_rank((a + b)[i]) < rule_rank((a + b)[j]) by {
        if j >= a.len() {
            assert((a + b)[j] == b[j - a.len()]);
        }
        if i < a.len() {
            assert((a + b)[i] == a[i]);
        }
        if j < a.len() {
            assert((a + b)[j] == a[j]);
        }
    }
    assert forall|i: int| 0 <= i < (a + b).len() implies rule_rank(#[trigger] (a + b)[i]) <= k by {
        if i < a.len() {
            assert((a + b)[i] == a[i]);
        } else {
            assert((a + b)[i] == b[i - a.len()]);
        }
    }
}

/// The graphical front end builds its rules in the order find/replace,
/// regex, prefix, suffix, removal, case, extension change: in particular
/// the case rule comes after every rule that adds or removes text, so it
/// applies to an added prefix or suffix too.
pub proof fn law_gui_rule_order(s: State)
    ensures
        ranks_rise(state_rules(s)),
{
    let fr = if s.find@.len() > 0 || s.replace@.len() > 0 {
        seq![RuleModel::FindReplace { find: s.find@, replace: s.replace@ }]
    } else {
        Seq::<RuleModel>::empty()
    };
    let cs = if s.case@.len() > 0 {
        match crate::cli::case_named(s.case@) {
            Some(c) => seq![RuleModel::CaseTransform(c)],
            None => Seq::<RuleModel>::empty(),
        }
    } else {
        Seq::<RuleModel>::empty()
    };
    let e = Seq::<RuleModel>::empty();
    let rx = crate::gui::when_filled(s.regex, RuleModel::RegexReplace { pattern: s.regex@, replacement: s.replacement@ });
    let pre = crate::gui::when_filled(s.prefix, RuleModel::Prefix(s.prefix@));
    let suf = crate::gui::when_filled(s.suffix, RuleModel::Suffix(s.suffix@));
    let rem = crate::gui::when_filled(s.remove, RuleModel::RemoveText(s.remove@));
    let ext = crate::gui::when_filled(s.ext_change, RuleModel::ChangeExtension { new_ext: Some(s.ext_change@) });
    lemma_rise_add(e, fr, 0);
    assert(e + fr =~= fr);
    lemma_rise_add(fr, rx, 1);
    lemma_rise_add(fr + rx, pre, 2);
    lemma_rise_add(fr + rx + pre, suf, 3);
    lemma_rise_add(fr + rx + pre + suf, rem, 4);
    lemma_rise_add(fr + rx + pre + suf + rem, cs, 5);
    lemma_rise_add(fr + rx + pre + suf + rem + cs, ext, 7);
    assert(state_rules(s) == fr + rx + pre + suf + rem + cs + ext);
}

/// The command line builds its rules in the order find/replace, regex,
/// prefix, suffix, removal, case, sequence number: in particular find and
/// replace, and the regex, see the name before any other rule changes it.
pub proof fn law_cli_rule_order(args: RenameArgs)
    ensures
        ranks_rise(requested_rules(args)),
{
    let e = Seq::<RuleModel>::empty();
    let fr = crate::cli::find_part(args);
    let rx = crate::cli::regex_part(args);
    let pre = crate::cli::prefix_part(args);
    let suf = crate::cli::suffix_part(args);
    let rem = crate::cli::remove_part(args);
    let cs = crate::cli::case_part(args);
    let ctr = crate::cli::counter_part(args);
    lemma_rise_add(e, fr, 0);
    assert(e + fr =~= fr);
    lemma_rise_add(fr, rx, 1);
    lemma_rise_add(fr + rx, pre, 2);
    lemma_rise_add(fr + rx + pre, suf, 3);
    lemma_rise_add(fr + rx + pre + suf, rem, 4);
    lemma_rise_add(fr + rx + pre + suf + rem, cs, 5);
    lemma_rise_add(fr + rx + pre + suf + rem + cs, ctr, 6);
}

/// Some rule of the list is of the kind that stands at `k`.
pub open spec fn has_kind(x: Seq<RuleModel>, k: int) -> bool {
    exists|i: int| 0 <= i < x.len() && rule_rank(#[trigger] x[i]) == k
}

proof fn lemma_kinds_join(a: Seq<RuleModel>, b: Seq<RuleModel>)
    ensures
        forall|k: int| #[trigger] has_kind(a + b, k) == (has_kind(a, k) || has_kind(b, k)),
{
    assert forall|k: int| #[trigger] has_kind(a + b, k) == (has_kind(a, k) || has_kind(b, k)) by {
        if has_kind(a + b, k) {
            let i = choose|i: int| 0 <= i < (a + b).len() && rule_rank(#[trigger] (a + b)[i]) == k;
            if i < a.len() {
                assert((a + b)[i] == a[i]);
            } else {
                assert((a + b)[i] == b[i - a.len()]);
            }
        }
        if has_kind(a, k) {
            let i = choose|i: int| 0 <= i < a.len() && rule_rank(#[trigger] a[i]) == k;
            assert((a + b)[i] == a[i]);
        }
        if has_kind(b, k) {
            let i = choose|i: int| 0 <= i < b.len() && rule_rank(#[trigger] b[i]) == k;
            assert((a + b)[i + a.len()] == b[i]);
        }
    }
}

proof fn lemma_contains_join(a: Seq<RuleModel>, b: Seq<RuleModel>)
    ensures
        forall|m: RuleModel| #[trigger] (a + b).contains(m) == (a.contains(m) || b.contains(m)),
{
    assert forall|m: RuleModel| #[trigger] (a + b).contains(m) == (a.contains(m) || b.contains(m)) by {
        if (a + b).contains(m) {
            let i = choose|i: int| 0 <= i < (a + b).len() && (a + b)[i] == m;
            if i < a.len() {
                assert((a + b)[i] == a[i]);
            } else {
                assert((a + b)[i] == b[i - a.len()]);
            }
        }
        if a.contains(m) {
            let i = choose|i: int| 0 <= i < a.len() && a[i] == m;
            assert((a + b)[i] == a[i]);
        }
        if b.contains(m) {
            let i = choose|i: int| 0 <= i < b.len() && b[i] == m;
            assert((a + b)[i + a.len()] == b[i]);
        }
    }
}

proof fn lemma_kinds_part(p: Seq<RuleModel>)
    requires
        p.len() <= 1,
    ensures
        forall|k: int| #[trigger] has_kind(p, k) == (p.len() == 1 && rule_rank(p[0]) == k),
        forall|m: RuleModel| #[trigger] p.contains(m) == (p.len() == 1 && p[0] == m),
{
    assert forall|k: int| #[trigger] has_kind(p, k) == (p.len() == 1 && rule_rank(p[0]) == k) by {
        if p.len() == 1 && rule_rank(p[0]) == k {
            assert(rule_rank(p[0]) == k);
        }
    }
    assert forall|m: RuleModel| #[trigger] p.contains(m) == (p.len() == 1 && p[0] == m) by {
        if p.len() == 1 && p[0] == m {
            assert(p[0] == m);
        }
    }
}

/// The graphical front end has a rule for each filled field and none
/// other: find/replace when either of its fields is filled, regex, prefix,
/// suffix and removal when filled, the case when the field names one, and
/// the extension change when filled; never a sequence number.
#[verifier::rlimit(30)]
pub proof fn law_gui_rules_present(s: State)
    ensures
        has_kind(state_rules(s), 0) <==> s.find@.len() > 0 || s.replace@.len() > 0,
        s.find@.len() > 0 || s.replace@.len() > 0 ==> state_rules(s).contains(
            RuleModel::FindReplace { find: s.find@, replace: s.replace@ },
        ),
        has_kind(state_rules(s), 1) <==> s.regex@.len() > 0,
        s.regex@.len() > 0 ==> state_rules(s).contains(
            RuleModel::RegexReplace { pattern: s.regex@, replacement: s.replacement@ },
        ),
        has_kind(state_rules(s), 2) <==> s.prefix@.len() > 0,
        s.prefix@.len() > 0 ==> state_rules(s).contains(RuleModel::Prefix(s.prefix@)),
        has_kind(state_rules(s), 3) <==> s.suffix@.len() > 0,
        s.suffix@.len() > 0 ==> state_rules(s).contains(RuleModel::Suffix(s.suffix@)),
        has_kind(state_rules(s), 4) <==> s.remove@.len() > 0,
        s.remove@.len() > 0 ==> state_rules(s).contains(RuleModel::RemoveText(s.remove@)),
        has_kind(state_rules(s), 5) <==> s.case@.len() > 0 && crate::cli::case_named(s.case@) is Some,
        s.case@.len() > 0 ==> (crate::cli::case_named(s.case@) matches Some(c) ==> state_rules(s).contains(
            RuleModel::CaseTransform(c),
        )),
        !has_kind(state_rules(s), 6),
        has_kind(state_rules(s), 7) <==> s.ext_change@.len() > 0,
        s.ext_change@.len() > 0 ==> state_rules(s).contains(RuleModel::ChangeExtension { new_ext: Some(s.ext_change@) }),
{
    let fr = if s.find@.len() > 0 || s.replace@.len() > 0 {
        seq![RuleModel::FindReplace { find: s.find@, replace: s.replace@ }]
    } else {
        Seq::<RuleModel>::empty()
    };
    let cs = if s.case@.len() > 0 {
        match crate::cli::case_named(s.case@) {
            Some(c) => seq![RuleModel::CaseTransform(c)],
            None => Seq::<RuleModel>::empty(),
        }
    } else {
        Seq::<RuleModel>::empty()
    };
    let rx = crate::gui::when_filled(s.regex, RuleModel::RegexReplace { pattern: s.regex@, replacement: s.replacement@ });
    let pre = crate::gui::when_filled(s.prefix, RuleModel::Prefix(s.prefix@));
    let suf = crate::gui::when_filled(s.suffix, RuleModel::Suffix(s.suffix@));
    let rem = crate::gui::when_filled(s.remove, RuleModel::RemoveText(s.remove@));
    let ext = crate::gui::when_filled(s.ext_change, RuleModel::ChangeExtension { new_ext: Some(s.ext_change@) });
    lemma_kinds_part(fr);
    lemma_kinds_part(rx);
    lemma_kinds_part(pre);
    lemma_kinds_part(suf);
    lemma_kinds_part(rem);
    lemma_kinds_part(cs);
    lemma_kinds_part(ext);
    assert(forall|k: int| #[trigger] has_kind(fr + rx + pre + suf + rem + cs + ext, k) == (has_kind(fr, k) || has_kind(rx, k) || has_kind(pre, k) || has_kind(suf, k) || has_kind(rem, k) || has_kind(cs, k) || has_kind(ext, k))) by {
        lemma_kinds_join(fr, rx);
        lemma_kinds_join(fr + rx, pre);
        lemma_kinds_join(fr + rx + pre, suf);
        lemma_kinds_join(fr + rx + pre + suf, rem);
        lemma_kinds_join(fr + rx + pre + suf + rem, cs);
        lemma_kinds_join(fr + rx + pre + suf + rem + cs, ext);
    }
    assert(forall|m: RuleModel| #[trigger] (fr + rx + pre + suf + rem + cs + ext).contains(m) == (fr.contains(m) || rx.contains(m) || pre.contains(m) || suf.contains(m) || rem.contains(m) || cs.contains(m) || ext.contains(m))) by {
        lemma_contains_join(fr, rx);
        lemma_contains_join(fr + rx, pre);
        lemma_contains_join(fr + rx + pre, suf);
        lemma_contains_join(fr + rx + pre + suf, rem);
        lemma_contains_join(fr + rx + pre + suf + rem, cs);
        lemma_contains_join(fr + rx + pre + suf + rem + cs, ext);
    }
    assert(state_rules(s) == fr + rx + pre + suf + rem + cs + ext);
}

/// The command line has a rule for each option given and none other:
/// find/replace (with the replacement, empty when not given), regex (with
/// its replacement), prefix, suffix and removal when given, the case when
/// it names one, and the sequence number when its start or padding is given
/// and its position is known (start 1 and padding 0 when not given); never
/// an extension change.
#[verifier::rlimit(60)]
pub proof fn law_cli_rules_present(args: RenameArgs)
    ensures
        has_kind(requested_rules(args), 0) <==> args.find is Some,
        args.find matches Some(f) ==> requested_rules(args).contains(
            RuleModel::FindReplace {
                find: f@,
                replace: match args.replace {
                    Some(r) => r@,
                    None => Seq::<char>::empty(),
                },
            },
        ),
        has_kind(requested_rules(args), 1) <==> args.regex is Some,
        args.regex matches Some(p) ==> requested_rules(args).contains(
            RuleModel::RegexReplace {
                pattern: p@,
                replacement: match args.replacement {
                    Some(r) => r@,
                    None => Seq::<char>::empty(),
                },
            },
        ),
        has_kind(requested_rules(args), 2) <==> args.prefix is Some,
        args.prefix matches Some(p) ==> requested_rules(args).contains(RuleModel::Prefix(p@)),
        has_kind(requested_rules(args), 3) <==> args.suffix is Some,
        args.suffix matches Some(p) ==> requested_rules(args).contains(RuleModel::Suffix(p@)),
        has_kind(requested_rules(args), 4) <==> args.remove is Some,
        args.remove matches Some(p) ==> requested_rules(args).contains(RuleModel::RemoveText(p@)),
        has_kind(requested_rules(args), 5) <==> (args.case matches Some(c) && crate::cli::case_named(c@) is Some),
        args.case matches Some(c) ==> (crate::cli::case_named(c@) matches Some(k) ==> requested_rules(
            args,
        ).contains(RuleModel::CaseTransform(k))),
        has_kind(requested_rules(args), 6) <==> (args.counter_start is Some || args.counter_padding is Some)
            && crate::cli::position_named(args.counter_position@) is Some,
        args.counter_start is Some || args.counter_padding is Some ==> (crate::cli::position_named(
            args.counter_position@,
        ) matches Some(pos) ==> requested_rules(args).contains(
            RuleModel::NumberSequence {
                start: match args.counter_start {
                    Some(v) => v,
                    None => 1,
                },
                padding: match args.counter_padding {
                    Some(v) => v,
                    None => 0,
                },
                position: pos,
            },
        )),
        !has_kind(requested_rules(args), 7),
{
    let fr = crate::cli::find_part(args);
    let rx = crate::cli::regex_part(args);
    let pre = crate::cli::prefix_part(args);
    let suf = crate::cli::suffix_part(args);
    let rem = crate::cli::remove_part(args);
    let cs = crate::cli::case_part(args);
    let ctr = crate::cli::counter_part(args);
    assert(forall|k: int| #[trigger] has_kind(fr + rx + pre + suf + rem + cs + ctr, k) == (has_kind(fr, k) || has_kind(rx, k) || has_kind(pre, k) || has_kind(suf, k) || has_kind(rem, k) || has_kind(cs, k) || has_kind(ctr, k))) by {
        lemma_kinds_join(fr, rx);
        lemma_kinds_join(fr + rx, pre);
        lemma_kinds_join(fr + rx + pre, suf);
        lemma_kinds_join(fr + rx + pre + suf, rem);
        lemma_kinds_join(fr + rx + pre + suf + rem, cs);
        lemma_kinds_join(fr + rx + pre + suf + rem + cs, ctr);
    }
    assert(forall|m: RuleModel| #[trigger] (fr + rx + pre + suf + rem + cs + ctr).contains(m) == (fr.contains(m) || rx.contains(m) || pre.contains(m) || suf.contains(m) || rem.contains(m) || cs.contains(m) || ctr.contains(m))) by {
        lemma_contains_join(fr, rx);
        lemma_contains_join(fr + rx, pre);
        lemma_contains_join(fr + rx + pre, suf);
        lemma_contains_join(fr + rx + pre + suf, rem);
        lemma_contains_join(fr + rx + pre + suf + rem, cs);
        lemma_contains_join(fr + rx + pre + suf + rem + cs, ctr);
    }
    let x = fr + rx + pre + suf + rem + cs + ctr;
    assert(requested_rules(args) == x);
    assert(has_kind(x, 0) == (has_kind(fr, 0) || has_kind(rx, 0) || has_kind(pre, 0) || has_kind(suf, 0) || has_kind(rem, 0) || has_kind(cs, 0) || has_kind(ctr, 0)));
    assert(has_kind(x, 1) == (has_kind(fr, 1) || has_kind(rx, 1) || has_kind(pre, 1) || has_kind(suf, 1) || has_kind(rem, 1) || has_kind(cs, 1) || has_kind(ctr, 1)));
    assert(has_kind(x, 2) == (has_kind(fr, 2) || has_kind(rx, 2) || has_kind(pre, 2) || has_kind(suf, 2) || has_kind(rem, 2) || has_kind(cs, 2) || has_kind(ctr, 2)));
    assert(has_kind(x, 3) == (has_kind(fr, 3) || has_kind(rx, 3) || has_kind(pre, 3) || has_kind(suf, 3) || has_kind(rem, 3) || has_kind(cs, 3) || has_kind(ctr, 3)));
    assert(has_kind(x, 4) == (has_kind(fr, 4) || has_kind(rx, 4) || has_kind(pre, 4) || has_kind(suf, 4) || has_kind(rem, 4) || has_kind(cs, 4) || has_kind(ctr, 4)));
    assert(has_kind(x, 5) == (has_kind(fr, 5) || has_kind(rx, 5) || has_kind(pre, 5) || has_kind(suf, 5) || has_kind(rem, 5) || has_kind(cs, 5) || has_kind(ctr, 5)));
    assert(has_kind(x, 6) == (has_kind(fr, 6) || has_kind(rx, 6) || has_kind(pre, 6) || has_kind(suf, 6) || has_kind(rem, 6) || has_kind(cs, 6) || has_kind(ctr, 6)));
    assert(has_kind(x, 7) == (has_kind(fr, 7) || has_kind(rx, 7) || has_kind(pre, 7) || has_kind(suf, 7) || has_kind(rem, 7) || has_kind(cs, 7) || has_kind(ctr, 7)));
    lemma_kinds_part(fr);
    lemma_kinds_part(rx);
    lemma_kinds_part(pre);
    lemma_kinds_part(suf);
    lemma_kinds_part(rem);
    lemma_kinds_part(cs);
    lemma_kinds_part(ctr);
}

} // verus!
