//! What the graphical front end's buttons do, and what its status bar and
//! tables show.
//!
//! The window is drawn outside the library; it calls these actions with the
//! machine it runs on and shows the state they leave.

use vstd::prelude::*;
use crate::cli::{count_where, summarize_results};
use crate::conflict::{conflict_checks, conflicts_upto, detect_conflicts, Conflict};
use crate::engine::{apply_asked, applied_result, plan_error, plan_outcome_ok, plannable, plans_asked, rules_fit, RenameEngine, RenamePlan, RenameResult};
use crate::error::{message_of, NomforgeError};
use crate::gui::{case_invalid, is_fresh, same_settings, scan_options_of, state_rules, without_counter, State};
use crate::host::{asked_since, extends, is_query, lemma_asked_chain, lemma_asked_none, lemma_asked_push, lemma_queries_concat, only_queries, Host, HostCall, Session};
use crate::order::{paths_sorted, texts};
use crate::pattern::regex_accepts;
use crate::rules::{rule_models, RenameRule, RuleModel};
use crate::scanner::{pattern_error, patterns_ok, scan_files, selected_paths, ScanOptions};
use crate::undo::{default_undo_log_path, log_asked, log_path_for, log_renames, logged_moves, revert_asked, revert_last};
use crate::text::{chars_of, concat, contains_text, decimal, decimal_chars, has_substring, push_all, string_from_chars};

verus! {

/// `head`, then `n` in decimal, then `tail`.
pub open spec fn counted(head: Seq<char>, n: nat, tail: Seq<char>) -> Seq<char> {
    head + decimal(n) + tail
}

/// `counted` as a string.
fn counted_text(head: &str, n: usize, tail: &str) -> (r: String)
    ensures
        r@ == counted(head@, n as nat, tail@),
{
    let mut v = chars_of(head);
    push_all(&mut v, decimal_chars(n).as_slice());
    push_all(&mut v, chars_of(tail).as_slice());
    string_from_chars(v.as_slice())
}

/// `n` in decimal, then `tail`.
fn number_then(n: usize, tail: &str) -> (r: String)
    ensures
        r@ == decimal(n as nat) + tail@,
{
    let mut v = decimal_chars(n);
    push_all(&mut v, chars_of(tail).as_slice());
    string_from_chars(v.as_slice())
}

/// The status after scanning a directory that does not exist.
pub open spec fn not_found_status(dir: Seq<char>) -> Seq<char> {
    "Directory not found: "@ + dir
}

/// The status after a scan found `n` files.
pub open spec fn found_status(n: nat) -> Seq<char> {
    counted("Found "@, n, " file(s)"@)
}

/// The status after a failed scan.
pub open spec fn scan_error_status(e: NomforgeError) -> Seq<char> {
    "Scan error: "@ + message_of(e)
}

/// The include and exclude patterns of the state, where filled, compile.
pub open spec fn state_patterns_ok(s: State) -> bool {
    &&& (s.include_pattern@.len() > 0 ==> regex_accepts(s.include_pattern@))
    &&& (s.exclude@.len() > 0 ==> regex_accepts(s.exclude@))
}

/// The error of a scan whose patterns do not all compile: the first one
/// (include, then exclude) that does not.
pub open spec fn state_pattern_error(s: State, e: NomforgeError) -> bool {
    if s.include_pattern@.len() > 0 && !regex_accepts(s.include_pattern@) {
        e matches NomforgeError::InvalidRegex { pattern, .. } && pattern@ == s.include_pattern@
    } else {
        e matches NomforgeError::InvalidRegex { pattern, .. } && pattern@ == s.exclude@
    }
}

/// The status after a case field that names no case.
pub open spec fn rule_error_status(s: State) -> Seq<char> {
    "Rule error: "@ + "Conflict: "@ + "Invalid case: "@ + s.case@
}

/// The status after planning failed with `e`.
pub open spec fn plan_error_status(e: NomforgeError) -> Seq<char> {
    "Plan error: "@ + message_of(e)
}

/// The status after a preview of `n` plans.
pub open spec fn to_rename_status(n: nat) -> Seq<char> {
    decimal(n) + " file(s) to rename"@
}

/// The status after an apply held back by `n` conflicts.
pub open spec fn conflicts_status(n: nat) -> Seq<char> {
    decimal(n) + " conflict(s) detected \u{2014} review before applying"@
}

/// The status after `n` files were renamed.
pub open spec fn renamed_status(n: nat) -> Seq<char> {
    counted("Renamed "@, n, " file(s)"@)
}

/// The status after `n` files were renamed but the undo log failed with `e`.
pub open spec fn renamed_log_error_status(n: nat, e: NomforgeError) -> Seq<char> {
    counted("Renamed "@, n, " file(s) (undo log error: "@) + message_of(e) + ")"@
}

/// The status after an undo that failed with `e`.
pub open spec fn undo_error_status(e: NomforgeError) -> Seq<char> {
    "Undo error: "@ + message_of(e)
}

/// `plans` are the plans of `files` under the rules the state describes:
/// one per file, in order, file `i` numbered `i`.
pub open spec fn planned_for(s: State, files: Seq<String>, plans: Seq<RenamePlan>) -> bool {
    &&& files.len() > 0
    &&& plans.len() == files.len()
    &&& exists|rules: Seq<RenameRule>|
        #[trigger] rule_models(rules) == state_rules(s) && forall|i: int|
            0 <= i < files.len() ==> plan_outcome_ok(files[i]@, rules, i as nat, #[trigger] plans[i])
}

/// `plans` are what a preview or apply from state `s` plans: those of its
/// kept files if it has some, else of files found by a scan, in path order.
pub open spec fn plans_made(s: State, plans: Seq<RenamePlan>) -> bool {
    if s.files@.len() > 0 {
        planned_for(s, s.files@, plans)
    } else {
        state_patterns_ok(s) && exists|files: Seq<String>|
            paths_sorted(texts(files)) && #[trigger] planned_for(s, files, plans)
    }
}

/// `status` is one of the reasons a preview or apply from state `s` can stop
/// before planning: the directory does not exist, the case names no case,
/// the scan failed, it found nothing, or planning failed. Which one it is,
/// given the host's answers, `stopped` says.
pub open spec fn failure_reported(s: State, status: Seq<char>) -> bool {
    ||| status == not_found_status(s.dir@)
    ||| case_invalid(s) && status == rule_error_status(s)
    ||| !case_invalid(s) && s.files@.len() == 0 && !state_patterns_ok(s) && exists|e: NomforgeError|
        state_pattern_error(s, e) && status == #[trigger] scan_error_status(e)
    ||| !case_invalid(s) && s.files@.len() == 0 && state_patterns_ok(s) && status == "No files found"@
    ||| !case_invalid(s) && exists|e: NomforgeError| status == #[trigger] plan_error_status(e)
}

/// `found` are the conflicts among `plans`, for some answer to whether each
/// target exists (see `conflicts_given`).
pub open spec fn conflicts_reported(plans: Seq<RenamePlan>, found: Seq<Conflict>) -> bool {
    exists|flags: Seq<bool>|
        #![trigger conflicts_upto(plans, flags, plans.len() as int)]
        flags.len() == plans.len() && found.len() == conflicts_upto(plans, flags, plans.len() as int).len()
            && forall|k: int| 0 <= k < found.len() ==> #[trigger] found[k]@ == conflicts_upto(plans, flags, plans.len() as int)[k]
}

/// State `t` is what a preview leaves from state `s`: the output reset, and
/// either a stop reported with no plans, or the plans, their count in the
/// status and their conflicts.
pub open spec fn preview_reported(s: State, t: State) -> bool {
    &&& same_settings(s, t)
    &&& t.files@.len() == 0
    &&& t.results@.len() == 0
    &&& !t.applied
    &&& t.show_conflict_modal == s.show_conflict_modal
    &&& {
        ||| failure_reported(s, t.status@) && t.plans@.len() == 0 && t.pending_conflicts == s.pending_conflicts
        ||| t.status@ == to_rename_status(t.plans@.len()) && plans_made(s, t.plans@) && conflicts_reported(
            t.plans@,
            t.pending_conflicts@,
        )
    }
}

/// State `t` is what applying `plans` to the files `files` leaves from
/// state `s`: those plans and files kept, one result per plan, the output
/// marked applied, and the status saying how many renames succeeded (and
/// that the undo log failed, which can only happen when it is on and some
/// rename succeeded).
pub open spec fn apply_reported(s: State, plans: Seq<RenamePlan>, files: Seq<String>, t: State) -> bool {
    let n = count_where(t.results@, |x: RenameResult| x.success);
    &&& same_settings(s, t)
    &&& t.applied
    &&& t.plans@ == plans
    &&& t.files@ == files
    &&& t.results@.len() == plans.len()
    &&& forall|i: int| 0 <= i < plans.len() ==> applied_result(#[trigger] plans[i], t.results@[i])
    &&& {
        ||| t.status@ == renamed_status(n)
        ||| !s.no_undo && logged_moves(t.results@).len() > 0 && exists|e: NomforgeError|
            e is UndoLog && t.status@ == #[trigger] renamed_log_error_status(n, e)
    }
}

/// The two states differ at most in their status.
pub open spec fn only_status_changed(s: State, t: State) -> bool {
    &&& same_settings(s, t)
    &&& t.files == s.files
    &&& t.plans == s.plans
    &&& t.results == s.results
    &&& t.applied == s.applied
    &&& t.pending_conflicts == s.pending_conflicts
    &&& t.show_conflict_modal == s.show_conflict_modal
}

/// What a preview leaves does not depend on the status it started from.
proof fn lemma_preview_ignores_status(s: State, mid: State, t: State)
    requires
        only_status_changed(s, mid),
        preview_reported(mid, t),
    ensures
        preview_reported(s, t),
{
    assert(state_rules(s) == state_rules(mid));
    assert(case_invalid(s) == case_invalid(mid));
    assert(state_patterns_ok(s) == state_patterns_ok(mid));
    assert forall|e: NomforgeError| state_pattern_error(s, e) == state_pattern_error(mid, e) by {}
    assert forall|f: Seq<String>, p: Seq<RenamePlan>| #[trigger] planned_for(mid, f, p) implies planned_for(s, f, p) by {
        let rules = choose|rules: Seq<RenameRule>|
            #[trigger] rule_models(rules) == state_rules(mid) && forall|i: int|
                0 <= i < f.len() ==> plan_outcome_ok(f[i]@, rules, i as nat, #[trigger] p[i]);
        assert(rule_models(rules) == state_rules(s));
    }
    if failure_reported(mid, t.status@) {
        assert(failure_reported(s, t.status@));
    }
    if plans_made(mid, t.plans@) {
        if s.files@.len() == 0 {
            let files = choose|files: Seq<String>| paths_sorted(texts(files)) && #[trigger] planned_for(mid, files, t.plans@);
            assert(planned_for(s, files, t.plans@));
        }
        assert(plans_made(s, t.plans@));
    }
}

/// Stopping, and what was prepared, do not depend on the status.
proof fn lemma_prepare_ignores_status(s: State, mid: State, a: Seq<HostCall>)
    requires
        only_status_changed(s, mid),
    ensures
        forall|st: Seq<char>| stopped(mid, a, st) ==> stopped(s, a, st),
        forall|files: Seq<String>, plans: Seq<RenamePlan>|
            prepared(mid, files, plans, a) ==> prepared(s, files, plans, a),
{
    assert(state_rules(s) == state_rules(mid));
    assert(case_invalid(s) == case_invalid(mid));
    assert forall|o: ScanOptions| scan_options_of(mid, o) implies scan_options_of(s, o) by {}
    assert forall|x: bool| asked_dir(mid, a, x) implies asked_dir(s, a, x) by {}
    assert forall|st: Seq<char>| stopped(mid, a, st) implies stopped(s, a, st) by {
        let there = choose|there: bool| #[trigger] asked_dir(mid, a, there) && if !there {
            a.len() == 1 && st == not_found_status(mid.dir@)
        } else if case_invalid(mid) {
            a.len() == 1 && st == rule_error_status(mid)
        } else if mid.files@.len() > 0 {
            plan_failed(mid.files@, state_rules(mid), st)
        } else {
            exists|o: ScanOptions|
                #[trigger] scan_options_of(mid, o) && if !patterns_ok(o) {
                    a.len() == 1 && exists|e: NomforgeError| pattern_error(o, e) && st == #[trigger] scan_error_status(e)
                } else {
                    &&& a.len() >= 2
                    &&& a[1] matches HostCall::Walk { dir, recursive, answer } && dir == mid.dir@ && recursive
                        == o.recursive && if selected_paths(answer, o).len() == 0 {
                        a.len() == 2 && st == "No files found"@
                    } else {
                        exists|files: Seq<String>|
                            texts(files).to_multiset() == selected_paths(answer, o).to_multiset() && paths_sorted(
                                texts(files),
                            ) && #[trigger] plan_failed(files, state_rules(mid), st)
                    }
                }
        };
        assert(asked_dir(s, a, there));
        if there && !case_invalid(mid) && mid.files@.len() == 0 {
            let o = choose|o: ScanOptions|
                #[trigger] scan_options_of(mid, o) && if !patterns_ok(o) {
                    a.len() == 1 && exists|e: NomforgeError| pattern_error(o, e) && st == #[trigger] scan_error_status(e)
                } else {
                    &&& a.len() >= 2
                    &&& a[1] matches HostCall::Walk { dir, recursive, answer } && dir == mid.dir@ && recursive
                        == o.recursive && if selected_paths(answer, o).len() == 0 {
                        a.len() == 2 && st == "No files found"@
                    } else {
                        exists|files: Seq<String>|
                            texts(files).to_multiset() == selected_paths(answer, o).to_multiset() && paths_sorted(
                                texts(files),
                            ) && #[trigger] plan_failed(files, state_rules(mid), st)
                    }
                };
            assert(scan_options_of(s, o));
        }
    }
    assert forall|files: Seq<String>, plans: Seq<RenamePlan>| prepared(mid, files, plans, a) implies prepared(s, files, plans, a) by {
        let rules = choose|rules: Seq<RenameRule>|
            #[trigger] rule_models(rules) == state_rules(mid) && (forall|i: int|
                0 <= i < files.len() ==> plannable(#[trigger] files[i]@, rules)) && if mid.files@.len() > 0 {
                files == mid.files@ && plans_asked(files, rules, a.drop_first(), plans)
            } else {
                &&& a.len() >= 2
                &&& exists|o: ScanOptions|
                    #[trigger] scan_options_of(mid, o) && patterns_ok(o) && (a[1] matches HostCall::Walk {
                        dir,
                        recursive,
                        answer,
                    } && dir == mid.dir@ && recursive == o.recursive && texts(files).to_multiset() == selected_paths(
                        answer,
                        o,
                    ).to_multiset())
                &&& paths_sorted(texts(files))
                &&& plans_asked(files, rules, a.skip(2), plans)
            };
        if mid.files@.len() == 0 {
            let o = choose|o: ScanOptions|
                #[trigger] scan_options_of(mid, o) && patterns_ok(o) && (a[1] matches HostCall::Walk {
                    dir,
                    recursive,
                    answer,
                } && dir == mid.dir@ && recursive == o.recursive && texts(files).to_multiset() == selected_paths(
                    answer,
                    o,
                ).to_multiset());
            assert(scan_options_of(s, o));
        }
    }
}

/// What a preview asks and leaves does not depend on the status it started
/// from.
proof fn lemma_preview_asked_ignores_status(s: State, mid: State, asked: Seq<HostCall>, t: State)
    requires
        only_status_changed(s, mid),
        preview_asked(mid, asked, t),
    ensures
        preview_asked(s, asked, t),
{
    lemma_prepare_ignores_status(s, mid, asked);
    if t.plans@.len() > 0 {
        let (cut, files) = choose|cut: int, files: Seq<String>|
            0 <= cut <= asked.len() && #[trigger] prepared(mid, files, t.plans@, asked.take(cut)) && conflicts_found(
                t.plans@,
                asked.skip(cut),
                t.pending_conflicts@,
            );
        lemma_prepare_ignores_status(s, mid, asked.take(cut));
        assert(prepared(s, files, t.plans@, asked.take(cut)));
    }
}

/// What carrying out plans asks depends on the settings alone.
proof fn lemma_apply_done_settings(a: State, b: State, asked: Seq<HostCall>, t: State)
    requires
        same_settings(a, b),
        apply_done(a, asked, t),
    ensures
        apply_done(b, asked, t),
{
    let n = count_where(t.results@, |x: RenameResult| x.success);
    let cut = choose|cut: int|
        0 <= cut <= asked.len() && #[trigger] apply_asked(t.plans@, asked.take(cut), t.results@) && if a.no_undo {
            cut == asked.len() && t.status@ == renamed_status(n)
        } else {
            exists|mid: int, path: Seq<char>, r: crate::error::Result<()>|
                cut <= mid <= asked.len() && history_asked(a, asked.subrange(cut, mid), path) && #[trigger] log_asked(
                    path,
                    t.results@,
                    asked.skip(mid),
                    r,
                ) && match r {
                    Ok(()) => t.status@ == renamed_status(n),
                    Err(e) => t.status@ == renamed_log_error_status(n, e),
                }
        };
    if !a.no_undo {
        let (mid, path, r) = choose|mid: int, path: Seq<char>, r: crate::error::Result<()>|
            cut <= mid <= asked.len() && history_asked(a, asked.subrange(cut, mid), path) && #[trigger] log_asked(
                path,
                t.results@,
                asked.skip(mid),
                r,
            ) && match r {
                Ok(()) => t.status@ == renamed_status(n),
                Err(e) => t.status@ == renamed_log_error_status(n, e),
            };
        assert(history_asked(b, asked.subrange(cut, mid), path));
    }
}

/// Questions asked in two steps: the first step's questions come first,
/// and if both only read, so do all.
proof fn lemma_first_kept(start: Seq<HostCall>, mid: Seq<HostCall>, end: Seq<HostCall>)
    requires
        extends(start, mid),
        extends(mid, end),
    ensures
        extends(start, end),
        asked_since(start, end) == asked_since(start, mid) + asked_since(mid, end),
        forall|k: int| 0 <= k < asked_since(start, mid).len() ==> #[trigger] asked_since(start, end)[k] == asked_since(start, mid)[k],
        only_queries(asked_since(start, mid)) && only_queries(asked_since(mid, end)) ==> only_queries(asked_since(start, end)),
{
    lemma_asked_chain(start, mid, end);
    if only_queries(asked_since(start, mid)) && only_queries(asked_since(mid, end)) {
        lemma_queries_concat(asked_since(start, mid), asked_since(mid, end));
    }
}

/// Rules without a sequence number fit any number of files.
proof fn lemma_no_counter_fits(rules: Seq<RenameRule>, n: nat)
    requires
        without_counter(rules),
    ensures
        rules_fit(rules, n),
{
    assert forall|k: int, c: nat| 0 <= k < rules.len() && c < n implies crate::rules::rule_fits(rules[k], c) by {
        assert(!(rules[k] is NumberSequence));
    }
}

/// A copy of a list of paths.
fn copy_paths(v: &Vec<String>) -> (r: Vec<String>)
    ensures
        r@ == v@,
{
    let mut out: Vec<String> = Vec::new();
    let mut i: usize = 0;
    while i < v.len()
        invariant
            i <= v@.len(),
            out@ == v@.take(i as int),
        decreases v@.len() - i,
    {
        out.push(v[i].clone());
        assert(v@.take(i as int + 1) =~= v@.take(i as int).push(v@[i as int]));
        i = i + 1;
    }
    assert(v@.take(v@.len() as int) =~= v@);
    out
}

/// The first question an action asks: whether the state's directory exists.
pub open spec fn asked_dir(s: State, asked: Seq<HostCall>, there: bool) -> bool {
    asked.len() >= 1 && asked[0] == (HostCall::Exists { path: s.dir@, answer: there })
}

/// What a scan from state `s` asks and leaves in state `t`: whether the
/// directory exists; if not, the status says so and no files are kept.
/// Otherwise, for the options the state describes, a pattern that does not
/// compile is reported before anything else is asked; else the host is asked
/// for the entries under the directory, and the files kept, in path order,
/// are those the options select from them, with their count in the status.
pub open spec fn scan_asked(s: State, asked: Seq<HostCall>, t: State) -> bool {
    exists|there: bool|
        #[trigger] asked_dir(s, asked, there) && if !there {
            asked.len() == 1 && t.status@ == not_found_status(s.dir@) && t.files@.len() == 0
        } else {
            exists|o: ScanOptions|
                #[trigger] scan_options_of(s, o) && if patterns_ok(o) {
                    &&& asked.len() == 2
                    &&& asked[1] matches HostCall::Walk { dir, recursive, answer } && dir == s.dir@
                        && recursive == o.recursive && texts(t.files@).to_multiset() == selected_paths(
                        answer,
                        o,
                    ).to_multiset()
                    &&& paths_sorted(texts(t.files@))
                    &&& t.status@ == found_status(t.files@.len())
                } else {
                    &&& asked.len() == 1
                    &&& t.files@.len() == 0
                    &&& exists|e: NomforgeError| pattern_error(o, e) && t.status@ == #[trigger] scan_error_status(e)
                }
        }
}

/// What getting as far as the plans from state `s` asked, and found: the
/// directory exists and the case field is valid; the rules the state
/// describes planned every one of `files` (see `plans_asked`), these being
/// the state's kept files or, when it kept none, those the options it
/// describes select, in path order, from the entries the host gave for the
/// directory.
pub open spec fn prepared(s: State, files: Seq<String>, plans: Seq<RenamePlan>, asked: Seq<HostCall>) -> bool {
    &&& asked_dir(s, asked, true)
    &&& !case_invalid(s)
    &&& files.len() > 0
    &&& exists|rules: Seq<RenameRule>|
        #[trigger] rule_models(rules) == state_rules(s) && (forall|i: int|
            0 <= i < files.len() ==> plannable(#[trigger] files[i]@, rules)) && if s.files@.len() > 0 {
            files == s.files@ && plans_asked(files, rules, asked.drop_first(), plans)
        } else {
            &&& asked.len() >= 2
            &&& exists|o: ScanOptions|
                #[trigger] scan_options_of(s, o) && patterns_ok(o) && (asked[1] matches HostCall::Walk {
                    dir,
                    recursive,
                    answer,
                } && dir == s.dir@ && recursive == o.recursive && texts(files).to_multiset() == selected_paths(
                    answer,
                    o,
                ).to_multiset())
            &&& paths_sorted(texts(files))
            &&& plans_asked(files, rules, asked.skip(2), plans)
        }
}

/// Planning `files` under the rules modelled by `models` fails, with
/// `status` giving the error of the first file that cannot be planned.
pub open spec fn plan_failed(files: Seq<String>, models: Seq<RuleModel>, status: Seq<char>) -> bool {
    exists|rules: Seq<RenameRule>, j: int, e: NomforgeError|
        #![trigger rule_models(rules), plan_error(files[j]@, rules, e)]
        rule_models(rules) == models && 0 <= j < files.len() && !plannable(files[j]@, rules) && (forall|i: int|
            0 <= i < j ==> plannable(#[trigger] files[i]@, rules)) && plan_error(files[j]@, rules, e) && status
            == plan_error_status(e)
}

/// Getting as far as the plans from state `s` stopped, as the host's answers
/// in `asked` decide, with `status` saying why: the directory does not
/// exist; else the case field names no case; else, with kept files, planning
/// them fails; else a pattern does not compile (nothing more asked), the
/// entries the host gave select no file, or planning the selected files, in
/// path order, fails.
pub open spec fn stopped(s: State, asked: Seq<HostCall>, status: Seq<char>) -> bool {
    exists|there: bool|
        #[trigger] asked_dir(s, asked, there) && if !there {
            asked.len() == 1 && status == not_found_status(s.dir@)
        } else if case_invalid(s) {
            asked.len() == 1 && status == rule_error_status(s)
        } else if s.files@.len() > 0 {
            plan_failed(s.files@, state_rules(s), status)
        } else {
            exists|o: ScanOptions|
                #[trigger] scan_options_of(s, o) && if !patterns_ok(o) {
                    asked.len() == 1 && exists|e: NomforgeError| pattern_error(o, e) && status == #[trigger] scan_error_status(e)
                } else {
                    &&& asked.len() >= 2
                    &&& asked[1] matches HostCall::Walk { dir, recursive, answer } && dir == s.dir@ && recursive
                        == o.recursive && if selected_paths(answer, o).len() == 0 {
                        asked.len() == 2 && status == "No files found"@
                    } else {
                        exists|files: Seq<String>|
                            texts(files).to_multiset() == selected_paths(answer, o).to_multiset() && paths_sorted(
                                texts(files),
                            ) && #[trigger] plan_failed(files, state_rules(s), status)
                    }
                }
        }
}

/// The conflicts found among `plans` from the host's answers (see
/// `conflict_checks`).
pub open spec fn conflicts_found(plans: Seq<RenamePlan>, asked: Seq<HostCall>, found: Seq<Conflict>) -> bool {
    exists|flags: Seq<bool>|
        #[trigger] conflict_checks(plans, asked, flags) && found.len() == conflicts_upto(
            plans,
            flags,
            plans.len() as int,
        ).len() && forall|k: int|
            0 <= k < found.len() ==> #[trigger] found[k]@ == conflicts_upto(plans, flags, plans.len() as int)[k]
}

/// What a preview from state `s` asks and leaves in state `t`: it only
/// reads. Either it stopped before planning, as the host's answers decide
/// (see `stopped`), and shows no plans; or it shows the plans made (see
/// `prepared`), their count in the status, and as conflicts those found from
/// the host's answers to the questions that followed.
pub open spec fn preview_asked(s: State, asked: Seq<HostCall>, t: State) -> bool {
    &&& only_queries(asked)
    &&& {
        ||| t.plans@.len() == 0 && stopped(s, asked, t.status@)
        ||| t.plans@.len() > 0 && t.status@ == to_rename_status(t.plans@.len()) && exists|cut: int, files: Seq<String>|
            0 <= cut <= asked.len() && #[trigger] prepared(s, files, t.plans@, asked.take(cut)) && conflicts_found(
                t.plans@,
                asked.skip(cut),
                t.pending_conflicts@,
            )
    }
}

/// Where an action from state `s` keeps the undo log, and what finding it
/// asked: the history file when one is set, asking nothing; else the default
/// location for the home directory the host gave.
pub open spec fn history_asked(s: State, asked: Seq<HostCall>, path: Seq<char>) -> bool {
    if s.history_file@.len() > 0 {
        asked.len() == 0 && path == s.history_file@
    } else {
        asked.len() == 1 && (asked[0] matches HostCall::Home { answer } && path == log_path_for(answer))
    }
}

/// What carrying out the plans kept in `t` asked, from settings `s`: the
/// renames and their results (see `apply_asked`); then, unless undo logging
/// is off, where the log is kept (see `history_asked`) and the logging of
/// the results there (see `log_asked`). The status gives the number of
/// renames done and, when logging failed, why.
pub open spec fn apply_done(s: State, asked: Seq<HostCall>, t: State) -> bool {
    let n = count_where(t.results@, |x: RenameResult| x.success);
    exists|cut: int|
        0 <= cut <= asked.len() && #[trigger] apply_asked(t.plans@, asked.take(cut), t.results@) && if s.no_undo {
            cut == asked.len() && t.status@ == renamed_status(n)
        } else {
            exists|mid: int, path: Seq<char>, r: crate::error::Result<()>|
                cut <= mid <= asked.len() && history_asked(s, asked.subrange(cut, mid), path) && #[trigger] log_asked(
                    path,
                    t.results@,
                    asked.skip(mid),
                    r,
                ) && match r {
                    Ok(()) => t.status@ == renamed_status(n),
                    Err(e) => t.status@ == renamed_log_error_status(n, e),
                }
        }
}

/// What an apply from state `s` asks and leaves in state `t`. Either it
/// stopped before planning, as the host's answers decide (see `stopped`),
/// only reading and keeping no plans; or it found conflicts among the plans
/// made (see `prepared`) from the host's answers, only reading, and keeps
/// the plans and files, shows the conflicts and their count, and asks for
/// confirmation; or no conflict was found, and the plans made are carried
/// out and logged (see `apply_done`).
pub open spec fn apply_asked_from(s: State, asked: Seq<HostCall>, t: State) -> bool {
    &&& !t.applied ==> only_queries(asked)
    &&& {
        ||| !t.applied && t.plans@.len() == 0 && stopped(s, asked, t.status@)
        ||| !t.applied && t.show_conflict_modal && t.pending_conflicts@.len() > 0 && t.status@ == conflicts_status(
            t.pending_conflicts@.len(),
        ) && exists|cut: int|
            0 <= cut <= asked.len() && #[trigger] prepared(s, t.files@, t.plans@, asked.take(cut)) && conflicts_found(
                t.plans@,
                asked.skip(cut),
                t.pending_conflicts@,
            )
        ||| t.applied && exists|cut: int, mid: int|
            #![trigger prepared(s, t.files@, t.plans@, asked.take(cut)), apply_done(s, asked.skip(mid), t)]
            0 <= cut <= mid <= asked.len() && prepared(s, t.files@, t.plans@, asked.take(cut)) && conflicts_found(
                t.plans@,
                asked.subrange(cut, mid),
                Seq::<Conflict>::empty(),
            ) && apply_done(s, asked.skip(mid), t)
    }
}

/// What an undo from state `s` asks and leaves in state `t`: where the log
/// is kept (see `history_asked`), then whether it exists. When it does not,
/// only the status changes, saying so. Otherwise the last batch is reverted
/// (see `revert_asked`): when that fails, or nothing was reverted, only the
/// status changes, saying why; else a preview follows (see `preview_asked`).
pub open spec fn undo_asked_from(s: State, asked: Seq<HostCall>, t: State) -> bool {
    exists|cut: int, path: Seq<char>|
        0 <= cut < asked.len() && #[trigger] history_asked(s, asked.take(cut), path) && (asked[cut] matches HostCall::Exists {
            path: p,
            answer,
        } && p == path && if !answer {
            asked.len() == cut + 1 && only_status_changed(s, t) && t.status@ == "No undo history found"@
        } else {
            exists|mid: int, r: crate::error::Result<usize>|
                cut + 1 <= mid <= asked.len() && #[trigger] revert_asked(path, asked.subrange(cut + 1, mid), r)
                    && match r {
                    Ok(n) => if n == 0 {
                        mid == asked.len() && only_status_changed(s, t) && t.status@ == "No undo history found"@
                    } else {
                        preview_asked(s, asked.skip(mid), t)
                    },
                    Err(e) => mid == asked.len() && only_status_changed(s, t) && t.status@ == undo_error_status(e),
                }
        })
}

/// The application: its state, changed by the actions below.
pub struct NomforgeApp {
    pub state: State,
}

impl Default for NomforgeApp {
    fn default() -> (r: Self)
        ensures
            is_fresh(r.state),
    {
        NomforgeApp { state: State::default() }
    }
}

impl NomforgeApp {
    /// Scans the state's directory with its filters: the output is reset;
    /// then the status says that the directory does not exist, how many
    /// files were found (and they are kept), or why the scan failed.
    pub fn scan_files<H: Host>(&mut self, io: &mut Session<H>)
        ensures
            same_settings(old(self).state, final(self).state),
            final(self).state.plans@.len() == 0,
            final(self).state.results@.len() == 0,
            !final(self).state.applied,
            final(self).state.pending_conflicts == old(self).state.pending_conflicts,
            final(self).state.show_conflict_modal == old(self).state.show_conflict_modal,
            extends(old(io)@, final(io)@),
            only_queries(asked_since(old(io)@, final(io)@)),
            scan_asked(old(self).state, asked_since(old(io)@, final(io)@), final(self).state),
    {
        let ghost s = self.state;
        let ghost start = io@;
        proof {
            lemma_asked_none(start);
        }
        self.state.reset_output();
        let there = io.path_exists(self.state.dir.as_str());
        let ghost mid = io@;
        proof {
            lemma_asked_push(start, start, HostCall::Exists { path: s.dir@, answer: there });
        }
        if !there {
            self.state.status = concat("Directory not found: ", self.state.dir.as_str());
            proof {
                assert(asked_dir(s, asked_since(start, io@), there));
                assert(only_queries(asked_since(start, io@)));
            }
            return;
        }
        let options = self.state.build_scan_options();
        assert(scan_options_of(s, options));
        let scanned = scan_files(self.state.dir.as_str(), &options, io);
        proof {
            lemma_asked_chain(start, mid, io@);
            let all = asked_since(start, io@);
            assert(all[0] == asked_since(start, mid)[0]);
            assert(asked_dir(s, all, there));
            if all.len() == 2 {
                assert(all[1] == asked_since(mid, io@)[0]);
            }
            assert(only_queries(all)) by {
                assert forall|k: int| 0 <= k < all.len() implies is_query(#[trigger] all[k]) by {
                    if k == 1 {
                        assert(all[1] == asked_since(mid, io@)[0]);
                    }
                }
            }
        }
        match scanned {
            Ok(files) => {
                self.state.status = counted_text("Found ", files.len(), " file(s)");
                self.state.files = files;
            },
            Err(e) => {
                self.state.status = concat("Scan error: ", e.message().as_str());
                assert(self.state.status@ == scan_error_status(e));
            },
        }
    }

    /// Resets the output and gets as far as the plans: the files kept from
    /// the last scan (or, when there are none, those a scan finds now) and
    /// their plans; `None`, with the status saying why, when it stops.
    fn prepare<H: Host>(&mut self, io: &mut Session<H>) -> (r: Option<(Vec<String>, Vec<RenamePlan>)>)
        ensures
            extends(old(io)@, final(io)@),
            only_queries(asked_since(old(io)@, final(io)@)),
            exists|there: bool|
                #[trigger] asked_dir(old(self).state, asked_since(old(io)@, final(io)@), there) && (!there ==> r is None
                    && final(self).state.status@ == not_found_status(old(self).state.dir@)),
            r matches Some((files, plans)) ==> prepared(
                old(self).state,
                files@,
                plans@,
                asked_since(old(io)@, final(io)@),
            ),
            same_settings(old(self).state, final(self).state),
            final(self).state.files@.len() == 0,
            final(self).state.plans@.len() == 0,
            final(self).state.results@.len() == 0,
            !final(self).state.applied,
            final(self).state.pending_conflicts == old(self).state.pending_conflicts,
            final(self).state.show_conflict_modal == old(self).state.show_conflict_modal,
            r is None ==> stopped(old(self).state, asked_since(old(io)@, final(io)@), final(self).state.status@),
            match r {
                None => failure_reported(old(self).state, final(self).state.status@),
                Some((files, plans)) => {
                    &&& final(self).state.status@ == "Ready"@
                    &&& planned_for(old(self).state, files@, plans@)
                    &&& plans_made(old(self).state, plans@)
                    &&& (old(self).state.files@.len() > 0 ==> files@ == old(self).state.files@)
                },
            },
    {
        let ghost s = self.state;
        let ghost start = io@;
        proof {
            lemma_asked_none(start);
        }
        let cached = if self.state.files.len() > 0 {
            Some(copy_paths(&self.state.files))
        } else {
            None
        };
        self.state.reset_output();
        let there = io.path_exists(self.state.dir.as_str());
        let ghost d = io@;
        proof {
            lemma_asked_push(start, start, HostCall::Exists { path: s.dir@, answer: there });
            assert(asked_dir(s, asked_since(start, d), there));
            assert(only_queries(asked_since(start, d)));
            lemma_asked_none(d);
        }
        if !there {
            self.state.status = concat("Directory not found: ", self.state.dir.as_str());
            assert(stopped(s, asked_since(start, io@), self.state.status@));
            return None;
        }
        assert(state_rules(self.state) == state_rules(s));
        assert(case_invalid(self.state) == case_invalid(s));
        let rules = match self.state.build_rules() {
            Ok(r) => r,
            Err(e) => {
                self.state.status = concat("Rule error: ", e.message().as_str());
                assert(self.state.status@ =~= rule_error_status(s));
                assert(stopped(s, asked_since(start, io@), self.state.status@));
                return None;
            },
        };
        let ghost o: ScanOptions = arbitrary();
        let files = match cached {
            Some(c) => c,
            None => {
                let options = self.state.build_scan_options();
                proof {
                    o = options;
                }
                let scanned = scan_files(self.state.dir.as_str(), &options, io);
                proof {
                    lemma_first_kept(start, d, io@);
                    assert(asked_since(start, io@)[0] == asked_since(start, d)[0]);
                    assert(asked_dir(s, asked_since(start, io@), there));
                }
                match scanned {
                    Ok(f) => f,
                    Err(e) => {
                        self.state.status = concat("Scan error: ", e.message().as_str());
                        assert(self.state.status@ == scan_error_status(e));
                        proof {
                            assert(asked_since(start, io@) =~= asked_since(start, d));
                            assert(scan_options_of(s, o));
                            assert(stopped(s, asked_since(start, io@), self.state.status@));
                        }
                        return None;
                    },
                }
            },
        };
        let ghost sc = io@;
        proof {
            lemma_first_kept(start, d, sc);
            assert(asked_since(start, sc)[0] == asked_since(start, d)[0]);
            assert(asked_dir(s, asked_since(start, sc), there));
        }
        if files.len() == 0 {
            self.state.status = string_from_chars(chars_of("No files found").as_slice());
            proof {
                assert(s.files@.len() == 0);
                let all = asked_since(start, io@);
                assert(all[1] == asked_since(d, sc)[0]);
                vstd::seq_lib::to_multiset_len(texts(files@));
                assert(scan_options_of(s, o));
                if let HostCall::Walk { dir, recursive, answer } = all[1] {
                    vstd::seq_lib::to_multiset_len(selected_paths(answer, o));
                }
                assert(stopped(s, all, self.state.status@));
            }
            return None;
        }
        proof {
            lemma_no_counter_fits(rules@, files@.len());
        }
        let engine = RenameEngine::new(rules);
        let planned = engine.plan(files.as_slice(), io);
        proof {
            lemma_first_kept(start, sc, io@);
            assert(asked_since(start, io@)[0] == asked_since(start, sc)[0]);
            assert(asked_dir(s, asked_since(start, io@), there));
        }
        match planned {
            Ok(plans) => {
                proof {
                    let all = asked_since(start, io@);
                    assert(planned_for(s, files@, plans@));
                    assert(rule_models(rules@) == state_rules(s));
                    if s.files@.len() > 0 {
                        assert(asked_since(start, sc) =~= asked_since(start, d));
                        assert(all.drop_first() =~= asked_since(sc, io@));
                    } else {
                        assert(scan_options_of(s, o));
                        assert(all[1] == asked_since(start, sc)[1]);
                        assert(all.skip(2) =~= asked_since(sc, io@));
                    }
                    assert(prepared(s, files@, plans@, all));
                }
                Some((files, plans))
            },
            Err(e) => {
                self.state.status = concat("Plan error: ", e.message().as_str());
                assert(self.state.status@ == plan_error_status(e));
                proof {
                    let all = asked_since(start, io@);
                    assert(plan_failed(files@, state_rules(s), self.state.status@));
                    if s.files@.len() == 0 {
                        assert(scan_options_of(s, o));
                        assert(all[1] == asked_since(d, sc)[0]);
                        vstd::seq_lib::to_multiset_len(texts(files@));
                        if let HostCall::Walk { dir, recursive, answer } = all[1] {
                            vstd::seq_lib::to_multiset_len(selected_paths(answer, o));
                        }
                    } else {
                        assert(files@ == s.files@);
                    }
                    assert(stopped(s, all, self.state.status@));
                }
                None
            },
        }
    }

    /// Previews the renames: plans the kept files (or those a scan finds),
    /// shows how many there are and their conflicts; the files themselves
    /// are not kept. See `preview_reported`.
    pub fn preview<H: Host>(&mut self, io: &mut Session<H>)
        ensures
            preview_reported(old(self).state, final(self).state),
            extends(old(io)@, final(io)@),
            preview_asked(old(self).state, asked_since(old(io)@, final(io)@), final(self).state),
    {
        let ghost s = self.state;
        let ghost start = io@;
        match self.prepare(io) {
            None => {},
            Some((files, plans)) => {
                let ghost mid = io@;
                self.state.status = number_then(plans.len(), " file(s) to rename");
                let conflicts = detect_conflicts(plans.as_slice(), io);
                proof {
                    lemma_first_kept(start, mid, io@);
                    let all = asked_since(start, io@);
                    let cut = asked_since(start, mid).len() as int;
                    assert(all.take(cut) =~= asked_since(start, mid));
                    assert(all.skip(cut) =~= asked_since(mid, io@));
                    assert(all[0] == asked_since(start, mid)[0]);
                    assert(asked_dir(s, all, true));
                    assert(prepared(s, files@, plans@, all.take(cut)));
                    assert(conflicts_found(plans@, all.skip(cut), conflicts@));
                }
                self.state.pending_conflicts = conflicts;
                self.state.plans = plans;
            },
        }
    }

    /// Applies the renames: plans as `preview` does; when some plan
    /// conflicts, keeps the plans and files, shows the conflicts and asks for
    /// confirmation instead of renaming; otherwise applies them (see
    /// `do_apply`).
    #[verifier::rlimit(60)]
    pub fn apply<H: Host>(&mut self, io: &mut Session<H>)
        ensures
            ({
                let s = old(self).state;
                let t = final(self).state;
                ||| failure_reported(s, t.status@) && same_settings(s, t) && t.files@.len() == 0 && t.plans@.len() == 0
                    && t.results@.len() == 0 && !t.applied && t.pending_conflicts == s.pending_conflicts
                    && t.show_conflict_modal == s.show_conflict_modal
                ||| same_settings(s, t) && t.show_conflict_modal && t.pending_conflicts@.len() > 0 && conflicts_reported(
                    t.plans@,
                    t.pending_conflicts@,
                ) && t.status@ == conflicts_status(t.pending_conflicts@.len()) && planned_for(s, t.files@, t.plans@)
                    && plans_made(s, t.plans@) && t.results@.len() == 0 && !t.applied
                ||| conflicts_reported(t.plans@, Seq::<Conflict>::empty()) && planned_for(s, t.files@, t.plans@)
                    && plans_made(s, t.plans@) && apply_reported(s, t.plans@, t.files@, t)
                    && t.pending_conflicts == s.pending_conflicts && t.show_conflict_modal == s.show_conflict_modal
            }),
            extends(old(io)@, final(io)@),
            apply_asked_from(old(self).state, asked_since(old(io)@, final(io)@), final(self).state),
    {
        let ghost s = self.state;
        let ghost start = io@;
        match self.prepare(io) {
            None => {},
            Some((files, plans)) => {
                let ghost mid = io@;
                let conflicts = detect_conflicts(plans.as_slice(), io);
                let ghost checked = io@;
                proof {
                    lemma_first_kept(start, mid, io@);
                    let all = asked_since(start, io@);
                    let cut = asked_since(start, mid).len() as int;
                    assert(all.take(cut) =~= asked_since(start, mid));
                    assert(all.skip(cut) =~= asked_since(mid, io@));
                    assert(all[0] == asked_since(start, mid)[0]);
                    assert(asked_dir(s, all, true));
                    assert(prepared(s, files@, plans@, all.take(cut)));
                    assert(conflicts_found(plans@, all.skip(cut), conflicts@));
                }
                if conflicts.len() > 0 {
                    self.state.status = number_then(conflicts.len(), " conflict(s) detected \u{2014} review before applying");
                    self.state.pending_conflicts = conflicts;
                    self.state.show_conflict_modal = true;
                    self.state.plans = plans;
                    self.state.files = files;
                    proof {
                        let all = asked_since(start, io@);
                        let cut = asked_since(start, mid).len() as int;
                        assert(prepared(s, self.state.files@, self.state.plans@, all.take(cut)));
                        assert(conflicts_found(self.state.plans@, all.skip(cut), self.state.pending_conflicts@));
                    }
                    return;
                }
                assert(conflicts@ =~= Seq::<Conflict>::empty());
                let ghost before = self.state;
                self.do_apply(plans, files, io);
                assert(same_settings(s, self.state));
                proof {
                    lemma_asked_chain(start, checked, io@);
                    let all = asked_since(start, io@);
                    let cut = asked_since(start, mid).len() as int;
                    let m = asked_since(start, checked).len() as int;
                    assert(all.take(cut) =~= asked_since(start, checked).take(cut));
                    assert(all.subrange(cut, m) =~= asked_since(start, checked).skip(cut));
                    assert(all.skip(m) =~= asked_since(checked, io@));
                    assert(all[0] == asked_since(start, checked)[0]);
                    assert(asked_dir(s, all, true));
                    lemma_apply_done_settings(before, s, all.skip(m), self.state);
                    assert(prepared(s, self.state.files@, self.state.plans@, all.take(cut)));
                    assert(apply_done(s, all.skip(m), self.state));
                }
            },
        }
    }

    /// Where the undo log is kept: the history file when one is set, else the
    /// default location.
    fn history_path<H: Host>(&self, io: &mut Session<H>) -> (r: String)
        ensures
            extends(old(io)@, final(io)@),
            history_asked(self.state, asked_since(old(io)@, final(io)@), r@),
    {
        if self.state.history_file.as_str().is_empty() {
            default_undo_log_path(io)
        } else {
            proof {
                lemma_asked_none(io@);
            }
            self.state.history_file.clone()
        }
    }

    /// Renames the files as `plans` say, keeps plans, files and results,
    /// marks the output applied, reports how many renames succeeded and,
    /// unless undo logging is off, logs them (see `apply_reported`).
    pub fn do_apply<H: Host>(&mut self, plans: Vec<RenamePlan>, files: Vec<String>, io: &mut Session<H>)
        ensures
            apply_reported(old(self).state, plans@, files@, final(self).state),
            final(self).state.pending_conflicts == old(self).state.pending_conflicts,
            final(self).state.show_conflict_modal == old(self).state.show_conflict_modal,
            extends(old(io)@, final(io)@),
            apply_done(old(self).state, asked_since(old(io)@, final(io)@), final(self).state),
    {
        let ghost s = self.state;
        let ghost start = io@;
        let rules = match self.state.build_rules() {
            Ok(r) => r,
            Err(_) => Vec::new(),
        };
        let engine = RenameEngine::new(rules);
        let results = match engine.apply(plans.as_slice(), io) {
            Ok(r) => r,
            Err(e) => {
                self.state.status = concat("Apply error: ", e.message().as_str());
                return;
            },
        };
        let summary = summarize_results(results.as_slice());
        let succeeded = summary.succeeded;
        self.state.status = counted_text("Renamed ", succeeded, " file(s)");
        self.state.plans = plans;
        self.state.files = files;
        self.state.results = results;
        self.state.applied = true;
        let ghost applied = io@;
        proof {
            lemma_asked_none(applied);
            let all = asked_since(start, io@);
            assert(all.take(all.len() as int) =~= all);
            assert(apply_asked(self.state.plans@, all.take(all.len() as int), self.state.results@));
        }
        let ghost cut = asked_since(start, applied).len() as int;
        if !self.state.no_undo {
            let path = self.history_path(io);
            let ghost found = io@;
            let logged = log_renames(path.as_str(), self.state.results.as_slice(), io);
            proof {
                lemma_asked_chain(applied, found, io@);
                lemma_asked_chain(start, applied, io@);
                let all = asked_since(start, io@);
                let cut = asked_since(start, applied).len() as int;
                let mid = cut + asked_since(applied, found).len();
                assert(all.take(cut) =~= asked_since(start, applied));
                assert(all.subrange(cut, mid) =~= asked_since(applied, found));
                assert(all.skip(mid) =~= asked_since(found, io@));
                assert(apply_asked(self.state.plans@, all.take(cut), self.state.results@));
                assert(history_asked(s, all.subrange(cut, mid), path@));
                assert(log_asked(path@, self.state.results@, all.skip(mid), logged));
            }
            let ghost mid = cut + asked_since(applied, found).len();
            match logged {
                Ok(()) => {},
                Err(e) => {
                    let mut v = chars_of(counted_text("Renamed ", succeeded, " file(s) (undo log error: ").as_str());
                    push_all(&mut v, chars_of(e.message().as_str()).as_slice());
                    v.push(')');
                    self.state.status = string_from_chars(v.as_slice());
                    proof {
                        reveal_strlit(")");
                        assert(self.state.status@ =~= renamed_log_error_status(succeeded as nat, e));
                    }
                },
            }
            proof {
                let all = asked_since(start, io@);
                assert(apply_asked(self.state.plans@, all.take(cut), self.state.results@));
                assert(history_asked(s, all.subrange(cut, mid), path@));
                assert(log_asked(path@, self.state.results@, all.skip(mid), logged));
            }
        }
    }

    /// Confirms an apply held back by conflicts: the kept plans are applied
    /// to the kept files and the conflicts are dismissed.
    pub fn confirm_conflicts<H: Host>(&mut self, io: &mut Session<H>)
        ensures
            apply_reported(old(self).state, old(self).state.plans@, old(self).state.files@, final(self).state),
            final(self).state.pending_conflicts@.len() == 0,
            !final(self).state.show_conflict_modal,
            extends(old(io)@, final(io)@),
            apply_done(old(self).state, asked_since(old(io)@, final(io)@), final(self).state),
    {
        let mut plans: Vec<RenamePlan> = Vec::new();
        std::mem::swap(&mut plans, &mut self.state.plans);
        let mut files: Vec<String> = Vec::new();
        std::mem::swap(&mut files, &mut self.state.files);
        self.state.show_conflict_modal = false;
        self.state.pending_conflicts.clear();
        self.do_apply(plans, files, io);
    }

    /// Cancels an apply held back by conflicts: the conflicts are dismissed
    /// and the status says so; nothing else changes.
    pub fn cancel_conflicts(&mut self)
        ensures
            same_settings(old(self).state, final(self).state),
            final(self).state.files == old(self).state.files,
            final(self).state.plans == old(self).state.plans,
            final(self).state.results == old(self).state.results,
            final(self).state.applied == old(self).state.applied,
            final(self).state.pending_conflicts@.len() == 0,
            !final(self).state.show_conflict_modal,
            final(self).state.status@ == "Apply cancelled"@,
    {
        self.state.show_conflict_modal = false;
        self.state.pending_conflicts.clear();
        self.state.status = string_from_chars(chars_of("Apply cancelled").as_slice());
    }

    /// Closes the conflict confirmation without a choice: the conflicts are
    /// dismissed; nothing else changes.
    pub fn dismiss_conflicts(&mut self)
        ensures
            same_settings(old(self).state, final(self).state),
            final(self).state.files == old(self).state.files,
            final(self).state.plans == old(self).state.plans,
            final(self).state.results == old(self).state.results,
            final(self).state.applied == old(self).state.applied,
            final(self).state.status == old(self).state.status,
            final(self).state.pending_conflicts@.len() == 0,
            !final(self).state.show_conflict_modal,
    {
        self.state.show_conflict_modal = false;
        self.state.pending_conflicts.clear();
    }

    /// Reverts the last logged batch: when the undo log is missing or holds
    /// nothing to revert, or reverting fails, the status says so and nothing
    /// else changes; otherwise a fresh preview follows (whose status is the
    /// one left).
    pub fn perform_undo<H: Host>(&mut self, io: &mut Session<H>)
        ensures
            ({
                let s = old(self).state;
                let t = final(self).state;
                ||| only_status_changed(s, t) && t.status@ == "No undo history found"@
                ||| only_status_changed(s, t) && exists|e: NomforgeError|
                    e is UndoLog && t.status@ == #[trigger] undo_error_status(e)
                ||| preview_reported(s, t)
            }),
            extends(old(io)@, final(io)@),
            undo_asked_from(old(self).state, asked_since(old(io)@, final(io)@), final(self).state),
    {
        let ghost s = self.state;
        let ghost start = io@;
        let path = self.history_path(io);
        let ghost found = io@;
        let present = io.path_exists(path.as_str());
        let ghost checked = io@;
        proof {
            lemma_asked_none(found);
            lemma_asked_push(found, found, HostCall::Exists { path: path@, answer: present });
            lemma_asked_chain(start, found, checked);
            let all = asked_since(start, checked);
            let cut = asked_since(start, found).len() as int;
            assert(all.take(cut) =~= asked_since(start, found));
            assert(all[cut] == asked_since(found, checked)[0]);
            assert(history_asked(s, all.take(cut), path@));
        }
        if !present {
            self.state.status = string_from_chars(chars_of("No undo history found").as_slice());
            return;
        }
        let reverted = revert_last(path.as_str(), io);
        let ghost back = io@;
        proof {
            lemma_asked_chain(start, checked, back);
            let all = asked_since(start, back);
            let cut = asked_since(start, found).len() as int;
            let m = asked_since(start, checked).len() as int;
            assert(all.take(cut) =~= asked_since(start, found));
            assert(all[cut] == asked_since(start, checked)[cut]);
            assert(all.subrange(cut + 1, m + asked_since(checked, back).len()) =~= asked_since(checked, back));
            assert(history_asked(s, all.take(cut), path@));
            assert(revert_asked(path@, all.subrange(cut + 1, all.len() as int), reverted));
        }
        match reverted {
            Ok(n) => {
                if n == 0 {
                    self.state.status = string_from_chars(chars_of("No undo history found").as_slice());
                } else {
                    self.state.status = counted_text("Reverted ", n, " file(s)");
                    let ghost mid = self.state;
                    self.preview(io);
                    proof {
                        lemma_preview_ignores_status(s, mid, self.state);
                        lemma_preview_asked_ignores_status(s, mid, asked_since(back, io@), self.state);
                        lemma_asked_chain(start, back, io@);
                        let all = asked_since(start, io@);
                        let cut = asked_since(start, found).len() as int;
                        let m = asked_since(start, back).len() as int;
                        assert(all.take(cut) =~= asked_since(start, back).take(cut));
                        assert(all[cut] == asked_since(start, back)[cut]);
                        assert(all.subrange(cut + 1, m) =~= asked_since(start, back).subrange(cut + 1, m));
                        assert(all.skip(m) =~= asked_since(back, io@));
                        assert(history_asked(s, all.take(cut), path@));
                        assert(revert_asked(path@, all.subrange(cut + 1, m), reverted));
                    }
                }
            },
            Err(e) => {
                self.state.status = concat("Undo error: ", e.message().as_str());
                assert(self.state.status@ == undo_error_status(e));
            },
        }
    }
}

/// How the status bar shows a status.
#[derive(Debug, Clone, Copy, PartialEq, Eq, Structural)]
pub enum StatusTone {
    /// Something went wrong (red).
    Alarm,
    /// Something went right (green).
    Good,
    /// Nothing happened yet (gray).
    Idle,
    /// Anything else (the default color).
    Plain,
}

/// The tone of a status: alarming when it mentions `error`, `Error` or
/// `FAILED`; otherwise good when it mentions `Found`, `ok` or `Renamed`;
/// otherwise idle when it mentions `Ready`.
pub open spec fn tone_of(status: Seq<char>) -> StatusTone {
    if has_substring(status, "error"@) || has_substring(status, "Error"@) || has_substring(status, "FAILED"@) {
        StatusTone::Alarm
    } else if has_substring(status, "Found"@) || has_substring(status, "ok"@) || has_substring(status, "Renamed"@) {
        StatusTone::Good
    } else if has_substring(status, "Ready"@) {
        StatusTone::Idle
    } else {
        StatusTone::Plain
    }
}

/// The tone in which the status bar shows `status`.
pub fn status_tone(status: &str) -> (r: StatusTone)
    ensures
        r == tone_of(status@),
{
    if contains_text(status, "error") || contains_text(status, "Error") || contains_text(status, "FAILED") {
        StatusTone::Alarm
    } else if contains_text(status, "Found") || contains_text(status, "ok") || contains_text(status, "Renamed") {
        StatusTone::Good
    } else if contains_text(status, "Ready") {
        StatusTone::Idle
    } else {
        StatusTone::Plain
    }
}

/// The counts at the right of the status bar, and whether they report a
/// failure: after an apply, how many results succeeded and failed; else how
/// many plans there are; else how many files; else nothing.
pub fn status_summary(state: &State) -> (r: Option<(String, bool)>)
    ensures
        ({
            let ok = count_where(state.results@, |x: RenameResult| x.success);
            let bad = count_where(state.results@, |x: RenameResult| !x.success);
            if state.results@.len() > 0 {
                if bad > 0 {
                    r matches Some((t, alarm)) && t@ == decimal(ok) + " ok, "@ + decimal(bad) + " failed"@ && alarm
                } else {
                    r matches Some((t, alarm)) && t@ == decimal(ok) + " ok"@ && !alarm
                }
            } else if state.plans@.len() > 0 {
                r matches Some((t, alarm)) && t@ == decimal(state.plans@.len()) + " planned"@ && !alarm
            } else if state.files@.len() > 0 {
                r matches Some((t, alarm)) && t@ == decimal(state.files@.len()) + " files"@ && !alarm
            } else {
                r is None
            }
        }),
{
    if state.results.len() > 0 {
        let s = summarize_results(state.results.as_slice());
        if s.failed > 0 {
            let mut v = decimal_chars(s.succeeded);
            push_all(&mut v, chars_of(" ok, ").as_slice());
            push_all(&mut v, decimal_chars(s.failed).as_slice());
            push_all(&mut v, chars_of(" failed").as_slice());
            Some((string_from_chars(v.as_slice()), true))
        } else {
            Some((number_then(s.succeeded, " ok"), false))
        }
    } else if state.plans.len() > 0 {
        Some((number_then(state.plans.len(), " planned"), false))
    } else if state.files.len() > 0 {
        Some((number_then(state.files.len(), " files"), false))
    } else {
        None
    }
}

/// The kind of a badge, which sets its color.
#[derive(Debug, Clone, Copy, PartialEq, Eq, Structural)]
pub enum BadgeKind {
    /// No conflict (green).
    Success,
    /// A warning (amber).
    Warning,
    /// An error or a conflict (red).
    Error,
    /// Information (blue).
    Info,
}

/// The red, green and blue parts of a badge kind's color.
pub open spec fn badge_rgb(kind: BadgeKind) -> (u8, u8, u8) {
    match kind {
        BadgeKind::Success => (34, 139, 34),
        BadgeKind::Warning => (218, 165, 32),
        BadgeKind::Error => (220, 20, 60),
        BadgeKind::Info => (70, 130, 180),
    }
}

impl BadgeKind {
    /// The badge's color as red, green and blue: forest green, goldenrod,
    /// crimson or steel blue.
    pub fn color(&self) -> (r: (u8, u8, u8))
        ensures
            r == badge_rgb(*self),
    {
        match self {
            BadgeKind::Success => (34, 139, 34),
            BadgeKind::Warning => (218, 165, 32),
            BadgeKind::Error => (220, 20, 60),
            BadgeKind::Info => (70, 130, 180),
        }
    }
}

/// The conflict badge for `count` conflicts, and its kind: `no conflicts`
/// (fine), or `1 conflict`, `2 conflicts`, ... (an error).
pub fn conflict_badge(count: usize) -> (r: (String, BadgeKind))
    ensures
        count == 0 ==> r.0@ == "no conflicts"@ && r.1 == BadgeKind::Success,
        count == 1 ==> r.0@ == "1 conflict"@ && r.1 == BadgeKind::Error,
        count > 1 ==> r.0@ == decimal(count as nat) + " conflicts"@ && r.1 == BadgeKind::Error,
{
    if count == 0 {
        (string_from_chars(chars_of("no conflicts").as_slice()), BadgeKind::Success)
    } else if count == 1 {
        proof {
            reveal_with_fuel(decimal, 2);
        }
        let t = number_then(count, " conflict");
        assert(decimal(1) =~= seq!['1']);
        assert(t@ =~= "1 conflict"@) by {
            reveal_strlit("1 conflict");
            reveal_strlit(" conflict");
        }
        (t, BadgeKind::Error)
    } else {
        (number_then(count, " conflicts"), BadgeKind::Error)
    }
}

/// The status column of a result in the results table: `unchanged` when
/// nothing was renamed, else `ok` or `FAILED`.
pub fn result_label(result: &RenameResult) -> (r: String)
    ensures
        r@ == if result.source@ == result.target@ {
            "unchanged"@
        } else if result.success {
            "ok"@
        } else {
            "FAILED"@
        },
{
    if crate::text::same_text(result.source.as_str(), result.target.as_str()) {
        string_from_chars(chars_of("unchanged").as_slice())
    } else if result.success {
        string_from_chars(chars_of("ok").as_slice())
    } else {
        string_from_chars(chars_of("FAILED").as_slice())
    }
}

} // verus!
