# nomforge

A bulk file renamer: rename rules (find/replace, prefix/suffix, removal,
case, sequence numbers, extension change, regex), rule chaining, dry-run
plans, conflict detection, file filtering and an undo log.

The library under `src/` is verified with Verus. Contracts are stated over
mathematical models (`Seq<char>` for text, `Seq` for lists), and
`src/laws.rs` proves what holds across functions (rule chaining, conflict
reports, name fitting, sequence numbers, undo).

Everything the library does to the file system goes through the `Host`
trait (`src/host.rs`), whose methods promise nothing. The library asks them
through a `Session`, which keeps a ghost record of every question and the
answer it got. Contracts of the functions that touch the file system say
which questions they ask, in what order, and what they make of the answers;
what the machine answers is not stated. The program in `app/` implements
`Host` on the real file system, stores the undo log as JSON, parses the
command line and draws the window. Regular expressions come from the
`regex` crate, behind small wrappers whose contracts are stated in the
library; the clock is read through `std::time` and turned into the undo
log's timestamp by `chrono`, each behind such a wrapper.

- `src/rules/` — the rename rules
- `src/engine.rs` — planning and applying renames
- `src/display.rs` — fitting names to the 255-byte limit, disambiguation
- `src/conflict.rs` — duplicate and taken targets
- `src/scanner.rs` — selecting files from a directory walk
- `src/undo.rs` — the undo log
- `src/cli.rs`, `src/command.rs`, `src/gui.rs`, `src/frontend.rs` — what the two front ends decide
- `src/text.rs`, `src/unicode.rs`, `src/path.rs`, `src/order.rs` — text, paths and ordering
