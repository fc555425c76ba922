//! The undo log: batches of renames that can be reverted together.

use vstd::prelude::*;
use crate::engine::RenameResult;
use crate::error::{NomforgeError, Result};
use crate::host::{asked_since, extends, lemma_asked_chain, lemma_asked_none, lemma_asked_push, Host, HostCall, Session};
use crate::path::{join, joined};
use crate::text::{chars_of, string_from_chars};

verus! {

/// A single rename operation in the undo log.
#[derive(Debug, Clone)]
pub struct UndoEntry {
    pub source: String,
    pub target: String,
}

impl View for UndoEntry {
    type V = (Seq<char>, Seq<char>);

    open spec fn view(&self) -> (Seq<char>, Seq<char>) {
        (self.source@, self.target@)
    }
}

impl UndoEntry {
    /// A copy of this entry.
    pub fn duplicate(&self) -> (r: Self)
        ensures
            r == *self,
    {
        UndoEntry { source: self.source.clone(), target: self.target.clone() }
    }
}

/// A batch of rename operations that can be undone together.
#[derive(Debug, Clone)]
pub struct UndoBatch {
    /// When the batch was logged, in nanoseconds since the Unix epoch (UTC).
    pub timestamp: i64,
    pub operations: Vec<UndoEntry>,
}

impl UndoBatch {
    /// A copy of this batch.
    pub fn duplicate(&self) -> (r: Self)
        ensures
            r@ == self@,
    {
        let mut ops: Vec<UndoEntry> = Vec::new();
        let mut i: usize = 0;
        while i < self.operations.len()
            invariant
                i <= self.operations@.len(),
                ops@ == self.operations@.take(i as int),
            decreases self.operations@.len() - i,
        {
            ops.push(self.operations[i].duplicate());
            assert(self.operations@.take(i as int + 1) =~= self.operations@.take(i as int).push(self.operations@[i as int]));
            i = i + 1;
        }
        assert(self.operations@.take(self.operations@.len() as int) =~= self.operations@);
        let r = UndoBatch { timestamp: self.timestamp, operations: ops };
        assert(moves_of(r.operations@) =~= moves_of(self.operations@));
        r
    }
}

impl View for UndoBatch {
    type V = (i64, Seq<(Seq<char>, Seq<char>)>);

    open spec fn view(&self) -> (i64, Seq<(Seq<char>, Seq<char>)>) {
        (self.timestamp, moves_of(self.operations@))
    }
}

/// The views of a sequence of batches.
pub open spec fn batch_views(s: Seq<UndoBatch>) -> Seq<(i64, Seq<(Seq<char>, Seq<char>)>)> {
    s.map_values(|b: UndoBatch| b@)
}

/// The undo log containing all rename batches, oldest first.
#[derive(Debug, Clone)]
pub struct UndoLog {
    pub batches: Vec<UndoBatch>,
}

/// The (source, target) pairs of a batch's operations.
pub open spec fn moves_of(ops: Seq<UndoEntry>) -> Seq<(Seq<char>, Seq<char>)> {
    ops.map_values(|e: UndoEntry| e@)
}

/// The renames that a batch was: the successful results, in order.
pub open spec fn logged_moves(results: Seq<RenameResult>) -> Seq<(Seq<char>, Seq<char>)>
    decreases results.len(),
{
    if results.len() == 0 {
        Seq::<(Seq<char>, Seq<char>)>::empty()
    } else {
        let rest = logged_moves(results.drop_last());
        if results.last().success {
            rest.push((results.last().source@, results.last().target@))
        } else {
            rest
        }
    }
}

/// The renames that undo `moves`: each target back to its source, last
/// move first.
pub open spec fn undo_moves(moves: Seq<(Seq<char>, Seq<char>)>) -> Seq<(Seq<char>, Seq<char>)> {
    moves.reverse().map_values(|m: (Seq<char>, Seq<char>)| (m.1, m.0))
}

/// The files after renaming `m.0` to `m.1`: the contents move, replacing
/// whatever was at the target.
pub open spec fn moved<V>(fs: Map<Seq<char>, V>, m: (Seq<char>, Seq<char>)) -> Map<Seq<char>, V> {
    fs.remove(m.0).insert(m.1, fs[m.0])
}

/// The files after the renames `moves`, in order.
pub open spec fn run_moves<V>(fs: Map<Seq<char>, V>, moves: Seq<(Seq<char>, Seq<char>)>) -> Map<Seq<char>, V>
    decreases moves.len(),
{
    if moves.len() == 0 {
        fs
    } else {
        moved(run_moves(fs, moves.drop_last()), moves.last())
    }
}

/// Each of the renames `moves`, done in order, finds its source present and
/// its target free.
pub open spec fn moves_clean<V>(fs: Map<Seq<char>, V>, moves: Seq<(Seq<char>, Seq<char>)>) -> bool
    decreases moves.len(),
{
    if moves.len() == 0 {
        true
    } else {
        let before = run_moves(fs, moves.drop_last());
        &&& moves_clean(fs, moves.drop_last())
        &&& before.dom().contains(moves.last().0)
        &&& !before.dom().contains(moves.last().1)
    }
}

/// The default log location under a home directory:
/// `<home>/.local/share/nomforge/undo_log.json`.
pub open spec fn log_path_under(home: Seq<char>) -> Seq<char> {
    joined(joined(joined(joined(home, ".local"@), "share"@), "nomforge"@), "undo_log.json"@)
}

impl UndoLog {
    /// An empty log.
    pub fn new() -> (r: Self)
        ensures
            r.batches@.len() == 0,
    {
        UndoLog { batches: Vec::new() }
    }

    /// Appends a batch as the most recent one.
    pub fn record(&mut self, batch: UndoBatch)
        ensures
            final(self).batches@ == old(self).batches@.push(batch),
    {
        self.batches.push(batch);
    }

    /// Removes and returns the most recent batch, if any.
    pub fn take_last(&mut self) -> (r: Option<UndoBatch>)
        ensures
            old(self).batches@.len() == 0 ==> r is None && final(self).batches@ == old(self).batches@,
            old(self).batches@.len() > 0 ==> r == Some(old(self).batches@.last())
                && final(self).batches@ == old(self).batches@.drop_last(),
    {
        self.batches.pop()
    }

    /// The `limit` most recent batches, most recent first.
    pub fn recent(&self, limit: usize) -> (r: Vec<UndoBatch>)
        ensures
            r@.len() == if limit <= self.batches@.len() { limit as int } else { self.batches@.len() as int },
            batch_views(r@) == batch_views(self.batches@).reverse().take(
                if limit <= self.batches@.len() { limit as int } else { self.batches@.len() as int },
            ),
    {
        let n = self.batches.len();
        let count = if limit <= n { limit } else { n };
        let mut out: Vec<UndoBatch> = Vec::new();
        let mut k: usize = 0;
        while k < count
            invariant
                n == self.batches@.len(),
                count <= n,
                k <= count,
                out@.len() == k,
                batch_views(out@) == batch_views(self.batches@).reverse().take(k as int),
            decreases count - k,
        {
            let ghost before = out@;
            out.push(self.batches[n - 1 - k].duplicate());
            assert(batch_views(out@) =~= batch_views(before).push(self.batches@[n - 1 - k]@));
            assert(batch_views(self.batches@).reverse()[k as int] == self.batches@[n - 1 - k]@);
            assert(batch_views(self.batches@).reverse().take(k as int + 1) =~= batch_views(self.batches@).reverse().take(
                k as int,
            ).push(self.batches@[n - 1 - k]@));
            k = k + 1;
        }
        out
    }
}

impl Default for UndoLog {
    fn default() -> (r: Self)
        ensures
            r.batches@.len() == 0,
    {
        Self::new()
    }
}

/// The undo log's location under the home directory `home`.
pub fn undo_log_path_under(home: &str) -> (r: String)
    ensures
        r@ == log_path_under(home@),
{
    let a = join(home, ".local");
    let b = join(a.as_str(), "share");
    let c = join(b.as_str(), "nomforge");
    join(c.as_str(), "undo_log.json")
}

/// Where the undo log goes for a home directory, if one is known.
pub open spec fn log_path_for(home: Option<Seq<char>>) -> Seq<char> {
    match home {
        Some(h) => log_path_under(h),
        None => log_path_under("."@),
    }
}

/// The undo log's location for the home directory `home`:
/// `<home>/.local/share/nomforge/undo_log.json`, under `.` when there is none.
pub fn undo_log_path_for(home: Option<String>) -> (r: String)
    ensures
        r@ == log_path_for(crate::host::text_of(home)),
{
    match home {
        Some(h) => undo_log_path_under(h.as_str()),
        None => undo_log_path_under("."),
    }
}

/// The default undo log location: asks the host for the home directory and
/// gives the location for its answer (see `undo_log_path_for`).
pub fn default_undo_log_path<H: Host>(io: &mut Session<H>) -> (r: String)
    ensures
        extends(old(io)@, final(io)@),
        asked_since(old(io)@, final(io)@).len() == 1,
        asked_since(old(io)@, final(io)@)[0] matches HostCall::Home { answer } && r@ == log_path_for(answer),
{
    let ghost start = io@;
    proof {
        lemma_asked_none(start);
    }
    let home = io.home_dir();
    proof {
        lemma_asked_push(start, start, HostCall::Home { answer: crate::host::text_of(home) });
    }
    undo_log_path_for(home)
}

/// The log entries for a batch of results: the successful ones, in order.
pub fn successful_entries(results: &[RenameResult]) -> (r: Vec<UndoEntry>)
    ensures
        moves_of(r@) == logged_moves(results@),
{
    let mut out: Vec<UndoEntry> = Vec::new();
    let mut i: usize = 0;
    assert(results@.take(0) =~= Seq::<RenameResult>::empty());
    while i < results.len()
        invariant
            i <= results@.len(),
            moves_of(out@) == logged_moves(results@.take(i as int)),
        decreases results@.len() - i,
    {
        let ghost upto = results@.take(i as int + 1);
        assert(upto.drop_last() =~= results@.take(i as int));
        assert(upto.last() == results@[i as int]);
        if results[i].success {
            let ghost before = out@;
            out.push(UndoEntry { source: results[i].source.clone(), target: results[i].target.clone() });
            assert(moves_of(out@) =~= moves_of(before).push((results@[i as int].source@, results@[i as int].target@)));
        }
        i = i + 1;
    }
    assert(results@.take(results@.len() as int) =~= results@);
    out
}

/// The renames that revert a batch: each target back to its source, the
/// last operation first.
pub fn undo_entries(batch: &UndoBatch) -> (r: Vec<UndoEntry>)
    ensures
        moves_of(r@) == undo_moves(moves_of(batch.operations@)),
{
    let ops = &batch.operations;
    let n = ops.len();
    let mut out: Vec<UndoEntry> = Vec::new();
    let mut k: usize = 0;
    while k < n
        invariant
            n == ops@.len(),
            k <= n,
            moves_of(out@) == undo_moves(moves_of(ops@)).take(k as int),
        decreases n - k,
    {
        let e = &ops[n - 1 - k];
        let ghost before = out@;
        out.push(UndoEntry { source: e.target.clone(), target: e.source.clone() });
        assert(moves_of(ops@).reverse()[k as int] == moves_of(ops@)[n - 1 - k]);
        assert(undo_moves(moves_of(ops@))[k as int] == (ops@[n - 1 - k].target@, ops@[n - 1 - k].source@));
        assert(moves_of(out@) =~= moves_of(before).push((e.target@, e.source@)));
        assert(moves_of(out@) =~= undo_moves(moves_of(ops@)).take(k as int + 1));
        k = k + 1;
    }
    assert(undo_moves(moves_of(ops@)).take(n as int) =~= undo_moves(moves_of(ops@)));
    out
}

/// The system clock against the Unix epoch (`std::time::UNIX_EPOCH.elapsed()`):
/// whether it is at or after the epoch, and how far from it, as whole
/// seconds and nanoseconds. Nothing is claimed of the value but that the
/// nanoseconds are under one second, as std documents for a `Duration`.
#[verifier::external_body]
fn since_epoch() -> (r: (bool, u64, u32))
    ensures
        r.2 < 1_000_000_000,
{
    match std::time::UNIX_EPOCH.elapsed() {
        Ok(d) => (true, d.as_secs(), d.subsec_nanos()),
        Err(e) => (false, e.duration().as_secs(), e.duration().subsec_nanos()),
    }
}

/// `secs` seconds and `nanos` nanoseconds after the epoch, in nanoseconds.
pub open spec fn epoch_nanos(secs: int, nanos: int) -> int {
    secs * 1_000_000_000 + nanos
}

/// chrono's UTC time from a Unix timestamp (`DateTime::from_timestamp`),
/// read back as nanoseconds since the epoch (`timestamp_nanos_opt`). The
/// contract claims that the result is the timestamp in nanoseconds when that
/// fits an `i64`, and `None` otherwise: every such instant lies within
/// chrono's range, and the read-back is checked arithmetic on the same
/// seconds and nanoseconds.
#[verifier::external_body]
fn utc_nanos(secs: i64, nanos: u32) -> (r: Option<i64>)
    requires
        nanos < 1_000_000_000,
    ensures
        r == (if i64::MIN <= epoch_nanos(secs as int, nanos as int) <= i64::MAX {
            Some(epoch_nanos(secs as int, nanos as int) as i64)
        } else {
            None::<i64>
        }),
{
    match chrono::DateTime::from_timestamp(secs, nanos) {
        Some(t) => t.timestamp_nanos_opt(),
        None => None,
    }
}

/// A signed time against the epoch, in nanoseconds, held to what an `i64`
/// holds.
pub open spec fn clamped_nanos(after: bool, secs: u64, nanos: u32) -> i64 {
    let v = if after {
        epoch_nanos(secs as int, nanos as int)
    } else {
        -epoch_nanos(secs as int, nanos as int)
    };
    if v > i64::MAX {
        i64::MAX
    } else if v < i64::MIN {
        i64::MIN
    } else {
        v as i64
    }
}

/// The log's timestamp for a clock reading `secs` seconds and `nanos`
/// nanoseconds after the epoch (before it when `after` is false), as chrono
/// gives it in nanoseconds; the nearest end of the `i64` range for a time
/// more than about 292 years from the epoch.
pub fn timestamp_from(after: bool, secs: u64, nanos: u32) -> (r: i64)
    requires
        nanos < 1_000_000_000,
    ensures
        r == clamped_nanos(after, secs, nanos),
{
    if secs > 9_223_372_036_854_775_807u64 - 1 {
        assert(epoch_nanos(secs as int, nanos as int) > i64::MAX) by (nonlinear_arith)
            requires
                secs >= 9_223_372_036_854_775_807u64,
        ;
        return if after {
            i64::MAX
        } else {
            i64::MIN
        };
    }
    let (s, n): (i64, u32) = if after {
        (secs as i64, nanos)
    } else if nanos == 0 {
        (-(secs as i64), 0)
    } else {
        (-(secs as i64) - 1, 1_000_000_000 - nanos)
    };
    assert(epoch_nanos(s as int, n as int) == if after {
        epoch_nanos(secs as int, nanos as int)
    } else {
        -epoch_nanos(secs as int, nanos as int)
    }) by (nonlinear_arith)
        requires
            after ==> s == secs && n == nanos,
            !after && nanos == 0 ==> s == -secs && n == 0,
            !after && nanos != 0 ==> s == -secs - 1 && n == 1_000_000_000 - nanos,
    ;
    match utc_nanos(s, n) {
        Some(t) => t,
        None => if after {
            i64::MAX
        } else {
            i64::MIN
        },
    }
}

/// The current time in nanoseconds since the Unix epoch (negative before
/// it), as `timestamp_from` gives it for the system clock's reading.
fn current_time() -> (r: i64)
    ensures
        exists|after: bool, secs: u64, nanos: u32| nanos < 1_000_000_000 && r == clamped_nanos(after, secs, nanos),
{
    let (after, secs, nanos) = since_epoch();
    timestamp_from(after, secs, nanos)
}

/// The log as loaded from what was found at its path: an empty log when
/// nothing was there, otherwise the log read, or the reason it could not be
/// read as an `UndoLog` error.
pub fn loaded_log(found: Option<core::result::Result<UndoLog, String>>) -> (r: Result<UndoLog>)
    ensures
        match found {
            None => r matches Ok(log) && log.batches@.len() == 0,
            Some(Ok(log)) => r matches Ok(x) && x == log,
            Some(Err(why)) => r matches Err(NomforgeError::UndoLog(w)) && w == why,
        },
{
    match found {
        None => Ok(UndoLog::new()),
        Some(Ok(log)) => Ok(log),
        Some(Err(why)) => Err(NomforgeError::UndoLog(why)),
    }
}

/// What loading the log at `path` asks and gives: whether it exists; an
/// empty log when not; otherwise a read of it, whose log is the result, or
/// whose reason for failing becomes an `UndoLog` error.
pub open spec fn load_asked(path: Seq<char>, asked: Seq<HostCall>, r: Result<UndoLog>) -> bool {
    &&& asked.len() >= 1
    &&& asked[0] matches HostCall::Exists { path: p, answer: there } && p == path && if !there {
        asked.len() == 1 && (r matches Ok(log) && log.batches@.len() == 0)
    } else {
        asked.len() == 2 && (asked[1] matches HostCall::ReadLog { path: q, answer: got } && q == path && match got {
            Ok(l) => r matches Ok(x) && x == l,
            Err(why) => r matches Err(NomforgeError::UndoLog(w)) && w@ == why,
        })
    }
}

/// Loads the undo log at `path` through the host (see `load_asked`).
pub fn load_undo_log<H: Host>(path: &str, io: &mut Session<H>) -> (r: Result<UndoLog>)
    ensures
        extends(old(io)@, final(io)@),
        load_asked(path@, asked_since(old(io)@, final(io)@), r),
{
    let ghost start = io@;
    proof {
        lemma_asked_none(start);
    }
    let there = io.path_exists(path);
    proof {
        lemma_asked_push(start, start, HostCall::Exists { path: path@, answer: there });
    }
    let found = if there {
        let ghost mid = io@;
        let got = io.read_undo_log(path);
        proof {
            lemma_asked_push(start, mid, HostCall::ReadLog { path: path@, answer: crate::host::read_of(got) });
        }
        Some(got)
    } else {
        None
    };
    loaded_log(found)
}

/// The outcome of storing the log: success, or the reason the write failed
/// as an `UndoLog` error.
pub fn stored_log(outcome: core::result::Result<(), String>) -> (r: Result<()>)
    ensures
        match outcome {
            Ok(()) => r is Ok,
            Err(why) => r matches Err(NomforgeError::UndoLog(w)) && w == why,
        },
{
    match outcome {
        Ok(()) => Ok(()),
        Err(why) => Err(NomforgeError::UndoLog(why)),
    }
}

/// The result of a write whose answer was `answer`: success when done,
/// otherwise the reason as an `UndoLog` error.
pub open spec fn write_result(answer: Option<Seq<char>>, r: Result<()>) -> bool {
    match answer {
        None => r is Ok,
        Some(why) => r matches Err(NomforgeError::UndoLog(w)) && w@ == why,
    }
}

/// Saves the undo log through the host: asks for `log` to be stored at
/// `path` and reports the answer (see `stored_log`).
pub fn save_undo_log<H: Host>(path: &str, log: &UndoLog, io: &mut Session<H>) -> (r: Result<()>)
    ensures
        extends(old(io)@, final(io)@),
        asked_since(old(io)@, final(io)@).len() == 1,
        asked_since(old(io)@, final(io)@)[0] matches HostCall::WriteLog { path: p, log: w, answer } && p == path@
            && w == *log && write_result(answer, r),
{
    let ghost start = io@;
    proof {
        lemma_asked_none(start);
    }
    let outcome = io.write_undo_log(path, log);
    proof {
        lemma_asked_push(start, start, HostCall::WriteLog { path: path@, log: *log, answer: crate::host::failure_of(outcome) });
    }
    stored_log(outcome)
}

/// Records the successful results as the log's most recent batch, taken at
/// `timestamp` (see `successful_entries`).
pub fn record_results(log: &mut UndoLog, results: &[RenameResult], timestamp: i64)
    ensures
        final(log).batches@.len() == old(log).batches@.len() + 1,
        final(log).batches@.drop_last() == old(log).batches@,
        final(log).batches@.last()@ == (timestamp, logged_moves(results@)),
{
    let successful = successful_entries(results);
    log.record(UndoBatch { timestamp, operations: successful });
    assert(log.batches@.drop_last() =~= old(log).batches@);
}

/// `written` is `loaded` with one more batch, of the successful results.
pub open spec fn logged_onto(loaded: UndoLog, written: UndoLog, results: Seq<RenameResult>) -> bool {
    &&& written.batches@.len() == loaded.batches@.len() + 1
    &&& written.batches@.drop_last() == loaded.batches@
    &&& written.batches@.last()@.1 == logged_moves(results)
}

/// What logging `results` at `path` asks and gives: nothing when no result
/// succeeded; otherwise the log is loaded (see `load_asked`), and when that
/// succeeds, the loaded log with a batch of the successful results is stored
/// there and the write's outcome is the result.
pub open spec fn log_asked(path: Seq<char>, results: Seq<RenameResult>, asked: Seq<HostCall>, r: Result<()>) -> bool {
    if logged_moves(results).len() == 0 {
        asked.len() == 0 && r is Ok
    } else {
        exists|cut: int, loaded: Result<UndoLog>|
            0 <= cut <= asked.len() && #[trigger] load_asked(path, asked.take(cut), loaded) && match loaded {
                Err(e) => cut == asked.len() && r == Err::<(), NomforgeError>(e),
                Ok(l) => asked.len() == cut + 1 && (asked.last() matches HostCall::WriteLog { path: p, log: w, answer }
                    && p == path && logged_onto(l, w, results) && write_result(answer, r)),
            }
    }
}

/// Logs a batch of successful rename operations (see `log_asked`).
pub fn log_renames<H: Host>(path: &str, results: &[RenameResult], io: &mut Session<H>) -> (r: Result<()>)
    ensures
        extends(old(io)@, final(io)@),
        log_asked(path@, results@, asked_since(old(io)@, final(io)@), r),
        r matches Err(e) ==> e is UndoLog,
{
    let ghost start = io@;
    proof {
        lemma_asked_none(start);
    }
    let successful = successful_entries(results);
    if successful.len() == 0 {
        return Ok(());
    }
    let loaded = load_undo_log(path, io);
    let ghost mid = io@;
    let mut log = match loaded {
        Ok(l) => l,
        Err(e) => {
            proof {
                assert(asked_since(start, io@).take(asked_since(start, io@).len() as int) =~= asked_since(start, io@));
                assert(load_asked(path@, asked_since(start, io@).take(asked_since(start, io@).len() as int), loaded));
            }
            return Err(e);
        },
    };
    let ghost l0 = log;
    let timestamp = current_time();
    record_results(&mut log, results, timestamp);
    let r = save_undo_log(path, &log, io);
    proof {
        lemma_asked_chain(start, mid, io@);
        let all = asked_since(start, io@);
        let cut = asked_since(start, mid).len() as int;
        assert(all.take(cut) =~= asked_since(start, mid));
        assert(all.last() == asked_since(mid, io@)[0]);
        assert(load_asked(path@, all.take(cut), loaded));
        assert(logged_onto(l0, log, results@));
    }
    r
}

/// Takes the most recent batch off `log` and gives the renames that revert
/// it (see `undo_entries`); fails with `No undo history found`, leaving the
/// log as it is, when there is no batch.
pub fn take_revert_moves(log: &mut UndoLog) -> (r: Result<Vec<UndoEntry>>)
    ensures
        old(log).batches@.len() == 0 ==> final(log).batches@ == old(log).batches@ && (r matches Err(
            NomforgeError::UndoLog(m),
        ) && m@ == "No undo history found"@),
        old(log).batches@.len() > 0 ==> final(log).batches@ == old(log).batches@.drop_last() && (r matches Ok(v)
            && moves_of(v@) == undo_moves(moves_of(old(log).batches@.last().operations@))),
{
    match log.take_last() {
        Some(batch) => Ok(undo_entries(&batch)),
        None => Err(NomforgeError::UndoLog(string_from_chars(chars_of("No undo history found").as_slice()))),
    }
}

/// How many of the renames asked were done.
pub open spec fn renames_done(asked: Seq<HostCall>) -> nat
    decreases asked.len(),
{
    if asked.len() == 0 {
        0
    } else {
        renames_done(asked.drop_last()) + if asked.last() matches HostCall::Rename { answer: None, .. } {
            1nat
        } else {
            0nat
        }
    }
}

/// Each question asks for the corresponding rename of `moves`.
pub open spec fn renames_asked(moves: Seq<(Seq<char>, Seq<char>)>, asked: Seq<HostCall>) -> bool {
    &&& asked.len() == moves.len()
    &&& forall|k: int|
        0 <= k < moves.len() ==> (#[trigger] asked[k] matches HostCall::Rename { from, to, .. } && from == moves[k].0
            && to == moves[k].1)
}

/// What reverting the last batch of the log at `path` asks and gives: the
/// log is loaded (see `load_asked`); when that fails, or the log holds no
/// batch, that is the error. Otherwise each rename that reverts the last
/// batch is asked for, last rename first, the log without that batch is
/// stored at `path`, and the result is how many renames back were done, or
/// the write's failure.
pub open spec fn revert_asked(path: Seq<char>, asked: Seq<HostCall>, r: Result<usize>) -> bool {
    exists|cut: int, loaded: Result<UndoLog>|
        0 <= cut <= asked.len() && #[trigger] load_asked(path, asked.take(cut), loaded) && match loaded {
            Err(e) => cut == asked.len() && r == Err::<usize, NomforgeError>(e),
            Ok(l) => if l.batches@.len() == 0 {
                cut == asked.len() && (r matches Err(NomforgeError::UndoLog(m)) && m@ == "No undo history found"@)
            } else {
                let moves = undo_moves(moves_of(l.batches@.last().operations@));
                let back = asked.subrange(cut, cut + moves.len());
                &&& asked.len() == cut + moves.len() + 1
                &&& renames_asked(moves, back)
                &&& asked.last() matches HostCall::WriteLog { path: p, log: w, answer } && p == path
                    && w.batches@ == l.batches@.drop_last() && match answer {
                    None => r matches Ok(n) && n == renames_done(back),
                    Some(why) => r matches Err(NomforgeError::UndoLog(x)) && x@ == why,
                }
            },
        }
}

/// Reverts the last batch of renames: a rename back that fails (the file is
/// gone, or its name is taken) is skipped (see `revert_asked`).
pub fn revert_last<H: Host>(path: &str, io: &mut Session<H>) -> (r: Result<usize>)
    ensures
        extends(old(io)@, final(io)@),
        revert_asked(path@, asked_since(old(io)@, final(io)@), r),
        r matches Err(e) ==> e is UndoLog,
        r matches Ok(n) ==> n <= asked_since(old(io)@, final(io)@).len(),
{
    let ghost start = io@;
    proof {
        lemma_asked_none(start);
    }
    let loaded = load_undo_log(path, io);
    let ghost mid = io@;
    let mut log = match loaded {
        Ok(l) => l,
        Err(e) => {
            proof {
                assert(asked_since(start, io@).take(asked_since(start, io@).len() as int) =~= asked_since(start, io@));
                assert(load_asked(path@, asked_since(start, io@).take(asked_since(start, io@).len() as int), loaded));
            }
            return Err(e);
        },
    };
    let ghost l0 = log;
    let moves = match take_revert_moves(&mut log) {
        Ok(m) => m,
        Err(e) => {
            proof {
                assert(asked_since(start, io@).take(asked_since(start, io@).len() as int) =~= asked_since(start, io@));
                assert(load_asked(path@, asked_since(start, io@).take(asked_since(start, io@).len() as int), loaded));
            }
            return Err(e);
        },
    };
    let ghost wanted = undo_moves(moves_of(l0.batches@.last().operations@));
    proof {
        lemma_asked_none(mid);
    }
    let mut reverted: usize = 0;
    let mut k: usize = 0;
    while k < moves.len()
        invariant
            k <= moves@.len(),
            moves_of(moves@) == wanted,
            extends(mid, io@),
            asked_since(mid, io@).len() == k,
            renames_asked(wanted.take(k as int), asked_since(mid, io@)),
            reverted == renames_done(asked_since(mid, io@)),
            reverted <= k,
        decreases moves@.len() - k,
    {
        let ghost before = io@;
        let outcome = io.rename_file(moves[k].source.as_str(), moves[k].target.as_str());
        proof {
            lemma_asked_push(mid, before, HostCall::Rename {
                from: moves@[k as int].source@,
                to: moves@[k as int].target@,
                answer: crate::host::failure_of(outcome),
            });
            let now = asked_since(mid, io@);
            assert(now.drop_last() == asked_since(mid, before));
            assert(moves_of(moves@)[k as int] == (moves@[k as int].source@, moves@[k as int].target@));
            assert(renames_asked(wanted.take(k as int + 1), now)) by {
                assert forall|j: int| 0 <= j < k + 1 implies (#[trigger] now[j] matches HostCall::Rename { from, to, .. }
                    && from == wanted.take(k as int + 1)[j].0 && to == wanted.take(k as int + 1)[j].1) by {
                    if j < k {
                        assert(now[j] == asked_since(mid, before)[j]);
                        assert(wanted.take(k as int + 1)[j] == wanted.take(k as int)[j]);
                    }
                }
            }
        }
        // A failed rename (e.g. the file is gone, or its name is taken) is skipped.
        if outcome.is_ok() {
            reverted = reverted + 1;
        }
        k = k + 1;
    }
    let ghost after_moves = io@;
    let saved = save_undo_log(path, &log, io);
    proof {
        lemma_asked_chain(mid, after_moves, io@);
        lemma_asked_chain(start, mid, io@);
        let all = asked_since(start, io@);
        let cut = asked_since(start, mid).len() as int;
        assert(all.take(cut) =~= asked_since(start, mid));
        assert(load_asked(path@, all.take(cut), loaded));
        assert(wanted.take(moves@.len() as int) =~= wanted);
        assert(all.subrange(cut, cut + wanted.len()) =~= asked_since(mid, after_moves));
        assert(all.last() == asked_since(after_moves, io@)[0]);
    }
    match saved {
        Ok(()) => Ok(reverted),
        Err(e) => Err(e),
    }
}

/// The `limit` most recent batches of the log at `path`, most recent first:
/// the log is loaded (see `load_asked`) and, when that succeeds, its
/// `recent(limit)` batches are the result.
pub fn list_batches<H: Host>(path: &str, limit: usize, io: &mut Session<H>) -> (r: Result<Vec<UndoBatch>>)
    ensures
        extends(old(io)@, final(io)@),
        exists|loaded: Result<UndoLog>|
            #[trigger] load_asked(path@, asked_since(old(io)@, final(io)@), loaded) && match loaded {
                Err(e) => r == Err::<Vec<UndoBatch>, NomforgeError>(e),
                Ok(l) => r matches Ok(v) && batch_views(v@) == batch_views(l.batches@).reverse().take(
                    if limit <= l.batches@.len() { limit as int } else { l.batches@.len() as int },
                ),
            },
        r matches Ok(v) ==> v@.len() <= limit,
        r matches Err(e) ==> e is UndoLog,
{
    let loaded = load_undo_log(path, io);
    match loaded {
        Ok(log) => Ok(log.recent(limit)),
        Err(e) => Err(e),
    }
}

/// The number of undo batches in the log at `path` (0 when there is none):
/// the log is loaded (see `load_asked`) and, when that succeeds, its batch
/// count is the result.
pub fn undo_count<H: Host>(path: &str, io: &mut Session<H>) -> (r: Result<usize>)
    ensures
        extends(old(io)@, final(io)@),
        exists|loaded: Result<UndoLog>|
            #[trigger] load_asked(path@, asked_since(old(io)@, final(io)@), loaded) && match loaded {
                Err(e) => r == Err::<usize, NomforgeError>(e),
                Ok(l) => r == Ok::<usize, NomforgeError>(l.batches@.len() as usize),
            },
        r matches Err(e) ==> e is UndoLog,
{
    let loaded = load_undo_log(path, io);
    match loaded {
        Ok(log) => Ok(log.batches.len()),
        Err(e) => Err(e),
    }
}

} // verus!
