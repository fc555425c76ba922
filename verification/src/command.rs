//! The decisions of the command-line program: what a `rename` run asks of
//! the machine, in which order, and where it stops. The program prints what
//! the run found and did.

use vstd::prelude::*;
use crate::cli::require_dir;
use crate::conflict::{detect_conflicts, Conflict};
use crate::engine::{apply_asked, plan_error, plannable, plans_asked, rules_fit, RenameEngine, RenamePlan, RenameResult};
use crate::error::{NomforgeError, Result};
use crate::frontend::conflicts_found;
use crate::host::{asked_since, extends, is_query, lemma_asked_chain, lemma_asked_none, lemma_asked_push, lemma_queries_concat, only_queries, Host, HostCall, Session};
use crate::order::{paths_sorted, texts};
use crate::rules::{rule_fits, RenameRule};
use crate::scanner::{pattern_error, patterns_ok, scan_files, selected_paths, ScanOptions};
use crate::undo::{
    default_undo_log_path, load_asked, log_asked, log_path_for, log_renames, revert_asked, revert_last, undo_count, UndoLog,
};

verus! {

/// Why a `rename` run stopped early.
#[derive(Debug, Clone)]
pub enum RenameStop {
    /// An error of the library.
    Failed(NomforgeError),
    /// The sequence numbers of the files found do not fit in a `usize`.
    CounterOverflow,
}

/// What a `rename` run found and did, as far as it got.
#[derive(Debug, Clone)]
pub struct RenameRun {
    /// Whether the directory was scanned.
    pub scanned: bool,
    /// The files the scan selected, in path order.
    pub files: Vec<String>,
    /// The plans made for them.
    pub plans: Vec<RenamePlan>,
    /// The conflicts detected among the plans.
    pub conflicts: Vec<Conflict>,
    /// Whether the plans were carried out.
    pub applied: bool,
    /// The results of carrying them out.
    pub results: Vec<RenameResult>,
    /// Where the renames were logged for undo, when they were.
    pub logged_to: Option<String>,
    /// Why the run stopped early, if it did.
    pub stop: Option<RenameStop>,
}

/// Where the undo log is kept, and what finding it asked: the history file
/// when one is given, asking nothing; else the default location for the
/// home directory the host gave.
pub open spec fn log_location(history: Option<String>, asked: Seq<HostCall>, path: Seq<char>) -> bool {
    match history {
        Some(h) => asked.len() == 0 && path == h@,
        None => asked.len() == 1 && (asked[0] matches HostCall::Home { answer } && path == log_path_for(answer)),
    }
}

/// What follows the conflict check: nothing more without `apply`; else
/// each plan is carried out (see `apply_asked`) and, unless `no_undo`, the
/// results are logged where the log is kept (see `log_location` and
/// `log_asked`), a failure to log stopping the run.
pub open spec fn carried_out(
    plans: Seq<RenamePlan>,
    apply: bool,
    no_undo: bool,
    history: Option<String>,
    asked: Seq<HostCall>,
    run: RenameRun,
) -> bool {
    if !apply {
        asked.len() == 0 && !run.applied && run.logged_to is None && run.stop is None
    } else {
        exists|cut: int|
            0 <= cut <= asked.len() && run.applied && #[trigger] apply_asked(plans, asked.take(cut), run.results@) && if no_undo {
                cut == asked.len() && run.logged_to is None && run.stop is None
            } else {
                exists|mid: int, path: Seq<char>, r: Result<()>|
                    cut <= mid <= asked.len() && log_location(history, asked.subrange(cut, mid), path) && #[trigger] log_asked(
                        path,
                        run.results@,
                        asked.skip(mid),
                        r,
                    ) && match r {
                        Ok(()) => run.logged_to matches Some(p) && p@ == path && run.stop is None,
                        Err(e) => run.logged_to is None && run.stop == Some(RenameStop::Failed(e)),
                    }
            }
    }
}

/// What a `rename` run in `dir` with `rules` and scan options `o` asks and
/// gives. It asks whether the directory exists, and stops with
/// `FileNotFound` when not; stops with the pattern error when a pattern
/// does not compile; else walks the directory and keeps the files the
/// options select, in path order. With none, it is done. It stops when the
/// sequence numbers do not fit, and with the first planning error when a
/// file cannot be planned. Otherwise it plans the files (see
/// `plans_asked`), checks the plans for conflicts (see `conflicts_found`),
/// and carries them out as `apply`, `no_undo` and `history` say (see
/// `carried_out`).
pub open spec fn rename_asked(
    dir: Seq<char>,
    rules: Seq<RenameRule>,
    o: ScanOptions,
    apply: bool,
    no_undo: bool,
    history: Option<String>,
    asked: Seq<HostCall>,
    run: RenameRun,
) -> bool {
    &&& asked.len() >= 1
    &&& asked[0] matches HostCall::Exists { path, answer: there } && path == dir && if !there {
        asked.len() == 1 && !run.scanned && !run.applied && (run.stop matches Some(
            RenameStop::Failed(NomforgeError::FileNotFound(p)),
        ) && p@ == dir)
    } else if !patterns_ok(o) {
        asked.len() == 1 && !run.scanned && !run.applied && (run.stop matches Some(RenameStop::Failed(e))
            && pattern_error(o, e))
    } else {
        &&& asked.len() >= 2
        &&& run.scanned
        &&& asked[1] matches HostCall::Walk { dir: d, recursive, answer } && d == dir && recursive == o.recursive
            && texts(run.files@).to_multiset() == selected_paths(answer, o).to_multiset()
        &&& paths_sorted(texts(run.files@))
        &&& if run.files@.len() == 0 {
            asked.len() == 2 && run.plans@.len() == 0 && !run.applied && run.stop is None
        } else if !rules_fit(rules, run.files@.len()) {
            asked.len() == 2 && run.plans@.len() == 0 && !run.applied && run.stop == Some(RenameStop::CounterOverflow)
        } else if exists|i: int| 0 <= i < run.files@.len() && !plannable(#[trigger] run.files@[i]@, rules) {
            &&& only_queries(asked)
            &&& run.plans@.len() == 0
            &&& !run.applied
            &&& exists|j: int, e: NomforgeError|
                #![trigger plan_error(run.files@[j]@, rules, e)]
                0 <= j < run.files@.len() && !plannable(run.files@[j]@, rules) && (forall|i: int|
                    0 <= i < j ==> plannable(#[trigger] run.files@[i]@, rules)) && plan_error(run.files@[j]@, rules, e)
                    && run.stop == Some(RenameStop::Failed(e))
        } else {
            exists|cut: int, mid: int|
                #![trigger plans_asked(run.files@, rules, asked.subrange(2, cut), run.plans@), carried_out(run.plans@, apply, no_undo, history, asked.skip(mid), run)]
                2 <= cut <= mid <= asked.len() && plans_asked(run.files@, rules, asked.subrange(2, cut), run.plans@)
                    && conflicts_found(run.plans@, asked.subrange(cut, mid), run.conflicts@) && carried_out(
                    run.plans@,
                    apply,
                    no_undo,
                    history,
                    asked.skip(mid),
                    run,
                )
        }
    }
}

/// Whether the sequence numbers of `n` files fit in a `usize` under every
/// rule (see `rules_fit`).
pub fn counters_fit(rules: &[RenameRule], n: usize) -> (r: bool)
    ensures
        r == rules_fit(rules@, n as nat),
{
    let mut i: usize = 0;
    while i < rules.len()
        invariant
            i <= rules@.len(),
            forall|k: int, c: nat| 0 <= k < i && c < n ==> rule_fits(rules@[k], c),
        decreases rules@.len() - i,
    {
        match &rules[i] {
            RenameRule::NumberSequence { start, .. } => {
                if n > 0 && *start > usize::MAX - (n - 1) {
                    assert(!rule_fits(rules@[i as int], (n - 1) as nat));
                    return false;
                }
            },
            _ => {},
        }
        i = i + 1;
    }
    true
}

/// A run stopped before or while scanning.
fn stopped_run(files: Vec<String>, scanned: bool, stop: Option<RenameStop>) -> (run: RenameRun)
    ensures
        run.files == files,
        run.scanned == scanned,
        run.stop == stop,
        run.plans@.len() == 0,
        !run.applied,
        run.logged_to is None,
{
    RenameRun {
        scanned,
        files,
        plans: Vec::new(),
        conflicts: Vec::new(),
        applied: false,
        results: Vec::new(),
        logged_to: None,
        stop,
    }
}

/// A run that got past planning: its questions split into the scan, the
/// planning, the conflict check and what followed.
proof fn lemma_run_reached(
    dir: Seq<char>,
    rules: Seq<RenameRule>,
    o: ScanOptions,
    apply: bool,
    no_undo: bool,
    history: Option<String>,
    all: Seq<HostCall>,
    run: RenameRun,
    cut: int,
    mid: int,
)
    requires
        all.len() >= 2,
        all[0] == (HostCall::Exists { path: dir, answer: true }),
        patterns_ok(o),
        run.scanned,
        all[1] matches HostCall::Walk { dir: d, recursive, answer } && d == dir && recursive == o.recursive
            && texts(run.files@).to_multiset() == selected_paths(answer, o).to_multiset(),
        paths_sorted(texts(run.files@)),
        run.files@.len() > 0,
        rules_fit(rules, run.files@.len()),
        forall|i: int| 0 <= i < run.files@.len() ==> plannable(#[trigger] run.files@[i]@, rules),
        2 <= cut <= mid <= all.len(),
        plans_asked(run.files@, rules, all.subrange(2, cut), run.plans@),
        conflicts_found(run.plans@, all.subrange(cut, mid), run.conflicts@),
        carried_out(run.plans@, apply, no_undo, history, all.skip(mid), run),
    ensures
        rename_asked(dir, rules, o, apply, no_undo, history, all, run),
{
}

/// Runs `rename` in `dir` with `rules` and scan options `options`: previews
/// the renames, or with `apply` carries them out and, unless `no_undo`,
/// logs them in `history` or the default location (see `rename_asked`).
pub fn rename_command<H: Host>(
    dir: &str,
    rules: Vec<RenameRule>,
    options: &ScanOptions,
    apply: bool,
    no_undo: bool,
    history: Option<String>,
    io: &mut Session<H>,
) -> (run: RenameRun)
    ensures
        extends(old(io)@, final(io)@),
        rename_asked(dir@, rules@, *options, apply, no_undo, history, asked_since(old(io)@, final(io)@), run),
{
    let ghost start = io@;
    proof {
        lemma_asked_none(start);
    }
    match require_dir(dir, io) {
        Ok(()) => {},
        Err(e) => {
            proof {
                lemma_asked_push(start, start, HostCall::Exists { path: dir@, answer: false });
            }
            return stopped_run(Vec::new(), false, Some(RenameStop::Failed(e)));
        },
    }
    let ghost d = io@;
    proof {
        lemma_asked_push(start, start, HostCall::Exists { path: dir@, answer: true });
    }
    let files = match scan_files(dir, options, io) {
        Ok(f) => f,
        Err(e) => {
            proof {
                lemma_asked_chain(start, d, io@);
                assert(asked_since(start, io@) =~= asked_since(start, d));
            }
            return stopped_run(Vec::new(), false, Some(RenameStop::Failed(e)));
        },
    };
    let ghost sc = io@;
    proof {
        lemma_asked_chain(start, d, sc);
        assert(asked_since(start, sc)[1] == asked_since(d, sc)[0]);
        assert(asked_since(start, sc)[0] == asked_since(start, d)[0]);
        assert(only_queries(asked_since(start, sc))) by {
            assert forall|k: int| 0 <= k < asked_since(start, sc).len() implies is_query(#[trigger] asked_since(start, sc)[k]) by {}
        }
    }
    if files.len() == 0 {
        return stopped_run(files, true, None);
    }
    if !counters_fit(rules.as_slice(), files.len()) {
        return stopped_run(files, true, Some(RenameStop::CounterOverflow));
    }
    let engine = RenameEngine::new(rules);
    let planned = engine.plan(files.as_slice(), io);
    let ghost pl = io@;
    proof {
        lemma_asked_chain(start, sc, pl);
        let all = asked_since(start, pl);
        assert(all.take(2) =~= asked_since(start, sc));
        assert(all[0] == asked_since(start, sc)[0]);
        assert(all[1] == asked_since(start, sc)[1]);
        assert(all.subrange(2, all.len() as int) =~= asked_since(sc, pl));
        lemma_queries_concat(asked_since(start, sc), asked_since(sc, pl));
    }
    let plans = match planned {
        Ok(p) => p,
        Err(e) => {
            return stopped_run(files, true, Some(RenameStop::Failed(e)));
        },
    };
    let conflicts = detect_conflicts(plans.as_slice(), io);
    let ghost cf = io@;
    proof {
        lemma_asked_chain(start, pl, cf);
        let all = asked_since(start, cf);
        let cut = asked_since(start, pl).len() as int;
        assert(all[0] == asked_since(start, pl)[0]);
        assert(all[1] == asked_since(start, pl)[1]);
        assert(all.subrange(2, cut) =~= asked_since(sc, pl));
        assert(all.subrange(cut, all.len() as int) =~= asked_since(pl, cf));
    }
    let mut run = RenameRun {
        scanned: true,
        files,
        plans,
        conflicts,
        applied: false,
        results: Vec::new(),
        logged_to: None,
        stop: None,
    };
    if !apply {
        proof {
            lemma_asked_none(cf);
            let all = asked_since(start, cf);
            let cut = asked_since(start, pl).len() as int;
            assert(all.skip(all.len() as int) =~= Seq::<HostCall>::empty());
            lemma_run_reached(dir@, rules@, *options, apply, no_undo, history, all, run, cut, all.len() as int);
        }
        return run;
    }
    let applied = engine.apply(run.plans.as_slice(), io);
    let ghost ap = io@;
    let results = match applied {
        Ok(r) => r,
        Err(e) => {
            run.stop = Some(RenameStop::Failed(e));
            return run;
        },
    };
    run.applied = true;
    run.results = results;
    proof {
        lemma_asked_chain(start, cf, ap);
        let all = asked_since(start, ap);
        let cut = asked_since(start, pl).len() as int;
        let mid = asked_since(start, cf).len() as int;
        assert(all[0] == asked_since(start, cf)[0]);
        assert(all[1] == asked_since(start, cf)[1]);
        assert(all.subrange(2, cut) =~= asked_since(start, cf).subrange(2, cut));
        assert(all.subrange(cut, mid) =~= asked_since(start, cf).subrange(cut, mid));
        assert(all.skip(mid) =~= asked_since(cf, ap));
        assert(asked_since(cf, ap).take(asked_since(cf, ap).len() as int) =~= asked_since(cf, ap));
        assert(apply_asked(run.plans@, asked_since(cf, ap).take(asked_since(cf, ap).len() as int), run.results@));
    }
    if no_undo {
        proof {
            let all = asked_since(start, io@);
            let cut = asked_since(start, pl).len() as int;
            let mid = asked_since(start, cf).len() as int;
            assert(carried_out(run.plans@, apply, no_undo, history, all.skip(mid), run));
            lemma_run_reached(dir@, rules@, *options, apply, no_undo, history, all, run, cut, mid);
        }
        return run;
    }
    let path = match history {
        Some(h) => {
            proof {
                lemma_asked_none(io@);
            }
            h
        },
        None => default_undo_log_path(io),
    };
    let ghost found = io@;
    let logged = log_renames(path.as_str(), run.results.as_slice(), io);
    match logged {
        Ok(()) => {
            run.logged_to = Some(path);
        },
        Err(e) => {
            run.stop = Some(RenameStop::Failed(e));
        },
    }
    proof {
        lemma_asked_chain(ap, found, io@);
        lemma_asked_chain(cf, ap, io@);
        lemma_asked_chain(start, cf, io@);
        let all = asked_since(start, io@);
        let cut = asked_since(start, pl).len() as int;
        let mid = asked_since(start, cf).len() as int;
        let rest = asked_since(cf, io@);
        let c2 = asked_since(cf, ap).len() as int;
        let m2 = c2 + asked_since(ap, found).len();
        assert(all[0] == asked_since(start, cf)[0]);
        assert(all[1] == asked_since(start, cf)[1]);
        assert(all.subrange(2, cut) =~= asked_since(start, cf).subrange(2, cut));
        assert(all.subrange(cut, mid) =~= asked_since(start, cf).subrange(cut, mid));
        assert(all.skip(mid) =~= rest);
        assert(rest.take(c2) =~= asked_since(cf, ap));
        assert(rest.subrange(c2, m2) =~= asked_since(ap, found));
        assert(rest.skip(m2) =~= asked_since(found, io@));
        assert(apply_asked(run.plans@, rest.take(c2), run.results@));
        assert(log_location(history, rest.subrange(c2, m2), path@));
        assert(log_asked(path@, run.results@, rest.skip(m2), logged));
        assert(carried_out(run.plans@, apply, no_undo, history, all.skip(mid), run));
        lemma_run_reached(dir@, rules@, *options, apply, no_undo, history, all, run, cut, mid);
    }
    run
}

/// What an `undo` run found and did.
#[derive(Debug, Clone)]
pub struct UndoRun {
    /// Where the undo log is kept.
    pub log: String,
    /// How many batches the log held.
    pub count: usize,
    /// How many renames back were done, when a batch was reverted.
    pub reverted: Option<usize>,
}

/// What an `undo` run asks and gives: where the log is kept (see
/// `log_location`); the log's batch count, as loading it gives it (see
/// `load_asked`, and `undo_count`); with no batch it is done; otherwise the last batch is
/// reverted (see `revert_asked`). A failure to load or revert is the error.
pub open spec fn undo_asked(history: Option<String>, asked: Seq<HostCall>, r: Result<UndoRun>) -> bool {
    exists|cut: int, path: Seq<char>|
        0 <= cut <= asked.len() && #[trigger] log_location(history, asked.take(cut), path) && exists|
            mid: int,
            loaded: Result<UndoLog>,
        |
            cut <= mid <= asked.len() && #[trigger] load_asked(path, asked.subrange(cut, mid), loaded) && match loaded {
                Err(e) => mid == asked.len() && (r matches Err(x) && x == e),
                Ok(l) => if l.batches@.len() as usize == 0 {
                    mid == asked.len() && (r matches Ok(u) && u.log@ == path && u.count == 0 && u.reverted is None)
                } else {
                    exists|rv: Result<usize>|
                        #[trigger] revert_asked(path, asked.skip(mid), rv) && match rv {
                            Ok(n) => r matches Ok(u) && u.log@ == path && u.count == l.batches@.len() as usize && u.reverted
                                == Some(n),
                            Err(e) => r matches Err(x) && x == e,
                        }
                },
            }
}

/// Runs `undo` with the log in `history` or the default location: reverts
/// the last batch when the log holds one (see `undo_asked`).
pub fn undo_command<H: Host>(history: Option<String>, io: &mut Session<H>) -> (r: Result<UndoRun>)
    ensures
        extends(old(io)@, final(io)@),
        undo_asked(history, asked_since(old(io)@, final(io)@), r),
{
    let ghost start = io@;
    proof {
        lemma_asked_none(start);
    }
    let path = match history {
        Some(h) => h,
        None => default_undo_log_path(io),
    };
    let ghost found = io@;
    let counted = undo_count(path.as_str(), io);
    let ghost ct = io@;
    proof {
        lemma_asked_chain(start, found, ct);
        let all = asked_since(start, ct);
        let cut = asked_since(start, found).len() as int;
        assert(all.take(cut) =~= asked_since(start, found));
        assert(all.subrange(cut, all.len() as int) =~= asked_since(found, ct));
        lemma_asked_none(ct);
        assert(all.skip(all.len() as int) =~= asked_since(ct, ct));
        assert(log_location(history, all.take(cut), path@));
    }
    let ghost loaded = choose|loaded: Result<UndoLog>|
        #[trigger] load_asked(path@, asked_since(found, ct), loaded) && match loaded {
            Err(e) => counted == Err::<usize, NomforgeError>(e),
            Ok(l) => counted == Ok::<usize, NomforgeError>(l.batches@.len() as usize),
        };
    proof {
        let all = asked_since(start, ct);
        let cut = asked_since(start, found).len() as int;
        assert(load_asked(path@, all.subrange(cut, all.len() as int), loaded));
    }
    let count = match counted {
        Ok(n) => n,
        Err(e) => {
            return Err(e);
        },
    };
    if count == 0 {
        return Ok(UndoRun { log: path, count, reverted: None });
    }
    let reverted = revert_last(path.as_str(), io);
    proof {
        lemma_asked_chain(start, ct, io@);
        let all = asked_since(start, io@);
        let cut = asked_since(start, found).len() as int;
        let mid = asked_since(start, ct).len() as int;
        assert(all.take(cut) =~= asked_since(start, found));
        assert(all.subrange(cut, mid) =~= asked_since(found, ct));
        assert(all.skip(mid) =~= asked_since(ct, io@));
        assert(log_location(history, all.take(cut), path@));
        assert(load_asked(path@, all.subrange(cut, mid), loaded));
        assert(revert_asked(path@, all.skip(mid), reverted));
    }
    match reverted {
        Ok(n) => Ok(UndoRun { log: path, count, reverted: Some(n) }),
        Err(e) => Err(e),
    }
}

} // verus!
