//! The machine the library runs on.
//!
//! Everything that touches the file system goes through `Host`, whose
//! methods promise nothing. The library asks them through a `Session`, which
//! keeps a record of every question and the answer it got; contracts state
//! which questions are asked and what the library makes of the answers.

use vstd::prelude::*;
use crate::rules::FileMetadata;
use crate::undo::UndoLog;

verus! {

/// One entry met while walking a directory.
#[derive(Debug, Clone)]
pub struct WalkEntry {
    /// The entry's full path.
    pub path: String,
    /// The entry's own name (its last component).
    pub file_name: String,
    /// Whether the entry is a regular file.
    pub is_file: bool,
}

/// File system services.
pub trait Host {
    /// Whether something exists at `path`.
    fn path_exists(&self, path: &str) -> bool;

    /// Size and timestamps of the file at `path`, when they can be read.
    fn file_metadata(&self, path: &str) -> Option<FileMetadata>;

    /// Renames `from` to `to`; on failure, why.
    fn rename_file(&self, from: &str, to: &str) -> core::result::Result<(), String>;

    /// The entries under `dir` (including `dir` itself), in walk order: only
    /// its direct children unless `recursive`, in which case every
    /// descendant, following symbolic links. Unreadable entries are left out.
    fn walk_dir(&self, dir: &str, recursive: bool) -> Vec<WalkEntry>;

    /// The user's home directory (`$HOME`), when it is set.
    fn home_dir(&self) -> Option<String>;

    /// Reads and decodes the undo log stored at `path`; on failure, why.
    fn read_undo_log(&self, path: &str) -> core::result::Result<UndoLog, String>;

    /// Encodes and stores `log` at `path`, creating missing parent
    /// directories; on failure, why.
    fn write_undo_log(&self, path: &str, log: &UndoLog) -> core::result::Result<(), String>;
}

/// A question put to the host, with the answer it gave.
pub enum HostCall {
    /// Whether something exists at `path`.
    Exists { path: Seq<char>, answer: bool },
    /// The metadata of the file at `path`.
    Metadata { path: Seq<char> },
    /// Rename `from` to `to`: `None` when done, else the reason it failed.
    Rename { from: Seq<char>, to: Seq<char>, answer: Option<Seq<char>> },
    /// The entries under `dir`.
    Walk { dir: Seq<char>, recursive: bool, answer: Seq<WalkEntry> },
    /// The home directory.
    Home { answer: Option<Seq<char>> },
    /// Read the undo log at `path`: the log, or the reason it failed.
    ReadLog { path: Seq<char>, answer: core::result::Result<UndoLog, Seq<char>> },
    /// Store `log` at `path`: `None` when done, else the reason it failed.
    WriteLog { path: Seq<char>, log: UndoLog, answer: Option<Seq<char>> },
}

/// The question only reads: it asks for no rename and no write.
pub open spec fn is_query(c: HostCall) -> bool {
    !(c is Rename) && !(c is WriteLog)
}

/// Every question asked only reads.
pub open spec fn only_queries(calls: Seq<HostCall>) -> bool {
    forall|k: int| 0 <= k < calls.len() ==> is_query(#[trigger] calls[k])
}

/// The questions `t` holds beyond those `s` held, when `t` extends `s`.
pub open spec fn asked_since(s: Seq<HostCall>, t: Seq<HostCall>) -> Seq<HostCall> {
    t.skip(s.len() as int)
}

/// `t` is `s` followed by more questions.
pub open spec fn extends(s: Seq<HostCall>, t: Seq<HostCall>) -> bool {
    s.len() <= t.len() && t.take(s.len() as int) == s
}

/// One more question extends a record.
pub proof fn lemma_asked_push(s: Seq<HostCall>, t: Seq<HostCall>, c: HostCall)
    requires
        extends(s, t),
    ensures
        extends(s, t.push(c)),
        asked_since(s, t.push(c)) == asked_since(s, t).push(c),
{
    assert(t.push(c).take(s.len() as int) =~= t.take(s.len() as int));
    assert(asked_since(s, t.push(c)) =~= asked_since(s, t).push(c));
}

/// Records extend each other in steps, and the questions add up.
pub proof fn lemma_asked_chain(s: Seq<HostCall>, t: Seq<HostCall>, u: Seq<HostCall>)
    requires
        extends(s, t),
        extends(t, u),
    ensures
        extends(s, u),
        asked_since(s, u) == asked_since(s, t) + asked_since(t, u),
{
    assert(u.take(s.len() as int) =~= t.take(s.len() as int)) by {
        assert forall|k: int| 0 <= k < s.len() implies u[k] == t[k] by {
            assert(u.take(t.len() as int)[k] == t[k]);
        }
    }
    assert(asked_since(s, u) =~= asked_since(s, t) + asked_since(t, u)) by {
        assert forall|j: int| s.len() <= j < t.len() implies #[trigger] u[j] == t[j] by {
            assert(u.take(t.len() as int)[j] == t[j]);
        }
    }
}

/// A record extends itself with nothing asked.
pub proof fn lemma_asked_none(s: Seq<HostCall>)
    ensures
        extends(s, s),
        asked_since(s, s) == Seq::<HostCall>::empty(),
{
    assert(s.take(s.len() as int) =~= s);
    assert(asked_since(s, s) =~= Seq::<HostCall>::empty());
}

/// Questions that only read, asked one batch after another, only read.
pub proof fn lemma_queries_concat(a: Seq<HostCall>, b: Seq<HostCall>)
    requires
        only_queries(a),
        only_queries(b),
    ensures
        only_queries(a + b),
{
    assert forall|k: int| 0 <= k < (a + b).len() implies is_query(#[trigger] (a + b)[k]) by {
        if k < a.len() {
            assert((a + b)[k] == a[k]);
        } else {
            assert((a + b)[k] == b[k - a.len()]);
        }
    }
}

/// A host together with the record of the questions put to it.
pub struct Session<'a, H: Host> {
    host: &'a H,
    calls: Ghost<Seq<HostCall>>,
}

impl<'a, H: Host> View for Session<'a, H> {
    type V = Seq<HostCall>;

    /// Every question put to the host so far, in order, with its answer.
    closed spec fn view(&self) -> Seq<HostCall> {
        self.calls@
    }
}

impl<'a, H: Host> Session<'a, H> {
    /// A session on `host` with nothing asked yet.
    pub fn new(host: &'a H) -> (r: Self)
        ensures
            r@ == Seq::<HostCall>::empty(),
    {
        Session { host, calls: Ghost(Seq::empty()) }
    }

    /// Asks whether something exists at `path`.
    pub fn path_exists(&mut self, path: &str) -> (r: bool)
        ensures
            final(self)@ == old(self)@.push(HostCall::Exists { path: path@, answer: r }),
    {
        let r = self.host.path_exists(path);
        self.calls = Ghost(self.calls@.push(HostCall::Exists { path: path@, answer: r }));
        r
    }

    /// Asks for the metadata of the file at `path`.
    pub fn file_metadata(&mut self, path: &str) -> (r: Option<FileMetadata>)
        ensures
            final(self)@ == old(self)@.push(HostCall::Metadata { path: path@ }),
    {
        let r = self.host.file_metadata(path);
        self.calls = Ghost(self.calls@.push(HostCall::Metadata { path: path@ }));
        r
    }

    /// Asks for `from` to be renamed to `to`.
    pub fn rename_file(&mut self, from: &str, to: &str) -> (r: core::result::Result<(), String>)
        ensures
            final(self)@ == old(self)@.push(
                HostCall::Rename { from: from@, to: to@, answer: failure_of(r) },
            ),
    {
        let r = self.host.rename_file(from, to);
        self.calls = Ghost(self.calls@.push(HostCall::Rename { from: from@, to: to@, answer: failure_of(r) }));
        r
    }

    /// Asks for the entries under `dir`.
    pub fn walk_dir(&mut self, dir: &str, recursive: bool) -> (r: Vec<WalkEntry>)
        ensures
            final(self)@ == old(self)@.push(HostCall::Walk { dir: dir@, recursive, answer: r@ }),
    {
        let r = self.host.walk_dir(dir, recursive);
        self.calls = Ghost(self.calls@.push(HostCall::Walk { dir: dir@, recursive, answer: r@ }));
        r
    }

    /// Asks for the home directory.
    pub fn home_dir(&mut self) -> (r: Option<String>)
        ensures
            final(self)@ == old(self)@.push(HostCall::Home { answer: text_of(r) }),
    {
        let r = self.host.home_dir();
        self.calls = Ghost(self.calls@.push(HostCall::Home { answer: text_of(r) }));
        r
    }

    /// Asks for the undo log at `path`.
    pub fn read_undo_log(&mut self, path: &str) -> (r: core::result::Result<UndoLog, String>)
        ensures
            final(self)@ == old(self)@.push(HostCall::ReadLog { path: path@, answer: read_of(r) }),
    {
        let r = self.host.read_undo_log(path);
        self.calls = Ghost(self.calls@.push(HostCall::ReadLog { path: path@, answer: read_of(r) }));
        r
    }

    /// Asks for `log` to be stored at `path`.
    pub fn write_undo_log(&mut self, path: &str, log: &UndoLog) -> (r: core::result::Result<(), String>)
        ensures
            final(self)@ == old(self)@.push(
                HostCall::WriteLog { path: path@, log: *log, answer: failure_of(r) },
            ),
    {
        let r = self.host.write_undo_log(path, log);
        self.calls = Ghost(
            self.calls@.push(HostCall::WriteLog { path: path@, log: *log, answer: failure_of(r) }),
        );
        r
    }
}

/// The reason an operation failed, if it did.
pub open spec fn failure_of(r: core::result::Result<(), String>) -> Option<Seq<char>> {
    match r {
        Ok(()) => None,
        Err(why) => Some(why@),
    }
}

/// An optional text as characters.
pub open spec fn text_of(t: Option<String>) -> Option<Seq<char>> {
    match t {
        Some(s) => Some(s@),
        None => None,
    }
}

/// A read's outcome with its reason as characters.
pub open spec fn read_of(r: core::result::Result<UndoLog, String>) -> core::result::Result<UndoLog, Seq<char>> {
    match r {
        Ok(log) => Ok(log),
        Err(why) => Err(why@),
    }
}

} // verus!
