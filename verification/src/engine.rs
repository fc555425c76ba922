//! The rename engine: turns files into rename plans and carries them out.

use vstd::prelude::*;
use crate::display::{truncate_stem, truncated_stem};
use crate::error::{NomforgeError, Result};
use crate::host::{asked_since, extends, lemma_asked_chain, lemma_asked_none, lemma_asked_push, lemma_queries_concat, only_queries, Host, HostCall, Session};
use crate::path::{file_name, file_name_of, join, joined, parent, parent_of, split_name, stem_and_extension};
use crate::rules::{FileMetadata, RenameContext, RenameRule, rule_error, rule_fits, rule_stem, rule_valid};
use crate::text::{chars_of, push_all, string_from_chars, utf8_len, utf8_len_capped};

verus! {

/// A planned rename operation for a single file.
#[derive(Debug, Clone, PartialEq, Eq)]
pub struct RenamePlan {
    pub source: String,
    pub target: String,
}

/// Result of applying a rename plan.
#[derive(Debug, Clone)]
pub struct RenameResult {
    pub source: String,
    pub target: String,
    pub success: bool,
    pub error: Option<String>,
}

/// The rename engine: generates plans and applies renames.
pub struct RenameEngine {
    rules: Vec<RenameRule>,
}

impl View for RenameEngine {
    type V = Seq<RenameRule>;

    closed spec fn view(&self) -> Seq<RenameRule> {
        self.rules@
    }
}

/// The extension after a rule: only `ChangeExtension` with a new extension
/// changes it (an empty one removes it).
pub open spec fn rule_extension(rule: RenameRule, ext: Seq<char>) -> Seq<char> {
    match rule {
        RenameRule::ChangeExtension { new_ext: Some(e) } => e@,
        _ => ext,
    }
}

/// Stem and extension after applying `rules` in order, each rule seeing the
/// result of the previous one.
pub open spec fn chained(rules: Seq<RenameRule>, stem: Seq<char>, ext: Seq<char>, counter: nat) -> (Seq<char>, Seq<char>)
    decreases rules.len(),
{
    if rules.len() == 0 {
        (stem, ext)
    } else {
        chained(rules.drop_first(), rule_stem(rules[0], stem, counter), rule_extension(rules[0], ext), counter)
    }
}

/// All rules are accepted.
pub open spec fn rules_valid(rules: Seq<RenameRule>) -> bool {
    forall|k: int| 0 <= k < rules.len() ==> rule_valid(rules[k])
}

/// `e` is the error of the first rule that is not accepted.
pub open spec fn first_rule_error(rules: Seq<RenameRule>, e: NomforgeError) -> bool {
    exists|k: int|
        0 <= k < rules.len() && !rule_valid(rules[k]) && (forall|j: int| 0 <= j < k ==> rule_valid(rules[j]))
            && rule_error(rules[k], e)
}

/// Every rule can number the files at positions below `n`.
pub open spec fn rules_fit(rules: Seq<RenameRule>, n: nat) -> bool {
    forall|k: int, c: nat| 0 <= k < rules.len() && c < n ==> rule_fits(rules[k], c)
}

/// A file name built from a stem and an extension (no dot without extension).
pub open spec fn planned_name(stem: Seq<char>, ext: Seq<char>) -> Seq<char> {
    if ext.len() == 0 {
        stem
    } else {
        stem + seq!['.'] + ext
    }
}

/// The directory a file's new name goes into.
pub open spec fn target_dir(path: Seq<char>) -> Seq<char> {
    match parent_of(path) {
        Some(d) => d,
        None => seq!['.'],
    }
}

/// The stem and extension (empty when absent) of a file's name.
pub open spec fn source_stem_ext(path: Seq<char>) -> (Seq<char>, Seq<char>) {
    match file_name_of(path) {
        Some(n) => {
            let (s, e) = stem_and_extension(n);
            (s, match e { Some(x) => x, None => Seq::<char>::empty() })
        },
        None => (Seq::<char>::empty(), Seq::<char>::empty()),
    }
}

/// Where the file at `path` goes under `rules` as file number `counter`:
/// the renamed stem and extension next to the file,
/// with the stem truncated when the new file name exceeds 255 bytes.
pub open spec fn fitted_target(path: Seq<char>, rules: Seq<RenameRule>, counter: nat) -> Seq<char> {
    let (stem0, ext0) = source_stem_ext(path);
    let (stem, ext) = chained(rules, stem0, ext0, counter);
    let dir = target_dir(path);
    let t = joined(dir, planned_name(stem, ext));
    match file_name_of(t) {
        Some(n) => if utf8_len(n) > 255 {
            joined(dir, planned_name(truncated_stem(stem, ext), ext))
        } else {
            t
        },
        None => t,
    }
}

/// The plan for one file: from the file to where the rules send it. A
/// target that is already taken is kept as it is: conflict detection
/// reports it before anything is renamed.
pub open spec fn plan_outcome_ok(path: Seq<char>, rules: Seq<RenameRule>, counter: nat, plan: RenamePlan) -> bool {
    &&& plan.source@ == path
    &&& plan.target@ == fitted_target(path, rules, counter)
}

/// What planning one file asks and gives: the file's metadata, and the plan
/// (see `plan_outcome_ok`).
pub open spec fn plan_asked(
    path: Seq<char>,
    rules: Seq<RenameRule>,
    counter: nat,
    asked: Seq<HostCall>,
    plan: RenamePlan,
) -> bool {
    &&& asked == seq![HostCall::Metadata { path }]
    &&& plan_outcome_ok(path, rules, counter, plan)
}

/// The questions `asked` split at `marks` into one stretch per file, each
/// the questions of that file's plan (see `plan_asked`).
pub open spec fn split_per_file(
    files: Seq<String>,
    rules: Seq<RenameRule>,
    asked: Seq<HostCall>,
    plans: Seq<RenamePlan>,
    marks: Seq<int>,
) -> bool {
    &&& plans.len() == files.len()
    &&& marks.len() == files.len() + 1
    &&& marks[0] == 0
    &&& marks.last() == asked.len()
    &&& forall|i: int| 0 <= i < files.len() ==> #[trigger] marks[i] <= marks[i + 1]
    &&& forall|i: int|
        0 <= i < files.len() ==> plan_asked(
            files[i]@,
            rules,
            i as nat,
            asked.subrange(marks[i], marks[i + 1]),
            #[trigger] plans[i],
        )
}

/// What planning `files` asks and gives: the questions of each file's plan,
/// file by file (see `plan_asked`).
pub open spec fn plans_asked(
    files: Seq<String>,
    rules: Seq<RenameRule>,
    asked: Seq<HostCall>,
    plans: Seq<RenamePlan>,
) -> bool {
    exists|marks: Seq<int>| #[trigger] split_per_file(files, rules, asked, plans, marks)
}

/// Marks that rise one by one to `top` stay at or under it.
proof fn lemma_marks_below(marks: Seq<int>, top: int, j: int, n: int)
    requires
        marks.len() == n + 1,
        marks[n] == top,
        0 <= j <= n,
        forall|i: int| 0 <= i < n ==> #[trigger] marks[i] <= marks[i + 1],
    ensures
        marks[j] <= top,
    decreases n - j,
{
    if j < n {
        lemma_marks_below(marks, top, j + 1, n);
    }
}

/// Marks that rise one by one from 0 stay at or above it.
proof fn lemma_marks_above(marks: Seq<int>, j: int, n: int)
    requires
        marks.len() == n + 1,
        marks[0] == 0,
        0 <= j <= n,
        forall|i: int| 0 <= i < n ==> #[trigger] marks[i] <= marks[i + 1],
    ensures
        marks[j] >= 0,
    decreases j,
{
    if j > 0 {
        lemma_marks_above(marks, j - 1, n);
    }
}

/// Planning one more file adds its questions and its plan.
proof fn lemma_split_step(
    files: Seq<String>,
    rules: Seq<RenameRule>,
    c: int,
    a1: Seq<HostCall>,
    a2: Seq<HostCall>,
    plans: Seq<RenamePlan>,
    marks: Seq<int>,
    p: RenamePlan,
)
    requires
        0 <= c < files.len(),
        split_per_file(files.take(c), rules, a1, plans, marks),
        plan_asked(files[c]@, rules, c as nat, a2, p),
    ensures
        split_per_file(files.take(c + 1), rules, a1 + a2, plans.push(p), marks.push((a1 + a2).len() as int)),
{
    let fs = files.take(c + 1);
    let all = a1 + a2;
    let ms = marks.push(all.len() as int);
    let ps = plans.push(p);
    assert forall|i: int| 0 <= i < fs.len() implies #[trigger] ms[i] <= ms[i + 1] by {
        if i < c {
            assert(marks[i] <= marks[i + 1]);
        } else {
            assert(ms[i] == a1.len());
        }
    }
    assert forall|i: int| 0 <= i < fs.len() implies plan_asked(
        fs[i]@,
        rules,
        i as nat,
        all.subrange(ms[i], ms[i + 1]),
        #[trigger] ps[i],
    ) by {
        if i < c {
            assert(files.take(c)[i] == fs[i]);
            assert(ps[i] == plans[i]);
            lemma_marks_below(marks, a1.len() as int, i + 1, c);
            lemma_marks_above(marks, i, c);
            assert(marks[i] <= marks[i + 1]);
            assert(ms[i] == marks[i] && ms[i + 1] == marks[i + 1]);
            assert(all.subrange(ms[i], ms[i + 1]) =~= a1.subrange(marks[i], marks[i + 1]));
        } else {
            assert(ms[i] == a1.len());
            assert(all.subrange(ms[i], ms[i + 1]) =~= a2);
        }
    }
}

/// The error for a file that cannot be planned: no file name, or the first
/// rule that is not accepted.
pub open spec fn plan_error(path: Seq<char>, rules: Seq<RenameRule>, e: NomforgeError) -> bool {
    if file_name_of(path) is None {
        e matches NomforgeError::FileNotFound(p) && p@ == path
    } else {
        first_rule_error(rules, e)
    }
}

/// A file can be planned: it has a file name and every rule is accepted.
pub open spec fn plannable(path: Seq<char>, rules: Seq<RenameRule>) -> bool {
    file_name_of(path) is Some && rules_valid(rules)
}

/// `planned_name` of the given stem and extension.
fn name_of(stem: &str, ext: &str) -> (r: String)
    ensures
        r@ == planned_name(stem@, ext@),
{
    if ext.is_empty() {
        return stem.to_owned();
    }
    let mut v = chars_of(stem);
    v.push('.');
    push_all(&mut v, chars_of(ext).as_slice());
    string_from_chars(v.as_slice())
}

impl RenameEngine {
    /// An engine applying `rules` in order.
    pub fn new(rules: Vec<RenameRule>) -> (r: Self)
        ensures
            r@ == rules@,
    {
        RenameEngine { rules }
    }

    /// Generates a dry-run preview of renames: one plan per file, in order,
    /// file `i` numbered `i`, asking the host only for each file's metadata.
    /// A target that is already taken is kept, for conflict detection to
    /// report. Fails with `NoFilesFound` for no files, and otherwise with the
    /// error of the first file that cannot be planned.
    pub fn plan<H: Host>(&self, files: &[String], io: &mut Session<H>) -> (r: Result<Vec<RenamePlan>>)
        requires
            rules_fit(self@, files@.len()),
        ensures
            extends(old(io)@, final(io)@),
            only_queries(asked_since(old(io)@, final(io)@)),
            files@.len() == 0 ==> r matches Err(NomforgeError::NoFilesFound),
            files@.len() > 0 ==> (r is Ok <==> forall|i: int| 0 <= i < files@.len() ==> plannable(files@[i]@, self@)),
            r matches Ok(plans) ==> plans@.len() == files@.len() && (forall|i: int|
                0 <= i < files@.len() ==> plan_outcome_ok(files@[i]@, self@, i as nat, #[trigger] plans@[i]))
                && plans_asked(files@, self@, asked_since(old(io)@, final(io)@), plans@),
            r matches Err(e) ==> files@.len() == 0 || exists|j: int|
                0 <= j < files@.len() && !plannable(files@[j]@, self@) && (forall|i: int|
                    0 <= i < j ==> plannable(files@[i]@, self@)) && plan_error(files@[j]@, self@, e),
    {
        let ghost start = io@;
        proof {
            lemma_asked_none(start);
        }
        if files.len() == 0 {
            return Err(NomforgeError::NoFilesFound);
        }
        let mut plans: Vec<RenamePlan> = Vec::new();
        let mut counter: usize = 0;
        let ghost mut marks: Seq<int> = seq![0int];
        assert(files@.take(0) =~= Seq::<String>::empty());
        while counter < files.len()
            invariant
                counter <= files@.len(),
                rules_fit(self@, files@.len()),
                start == old(io)@,
                extends(start, io@),
                only_queries(asked_since(start, io@)),
                plans@.len() == counter,
                forall|i: int| 0 <= i < counter ==> plannable(files@[i]@, self@),
                forall|i: int| 0 <= i < counter ==> plan_outcome_ok(files@[i]@, self@, i as nat, #[trigger] plans@[i]),
                split_per_file(files@.take(counter as int), self@, asked_since(start, io@), plans@, marks),
            decreases files@.len() - counter,
        {
            let ghost before = io@;
            let plan = self.plan_single(files[counter].as_str(), counter, io);
            proof {
                lemma_asked_chain(start, before, io@);
                lemma_queries_concat(asked_since(start, before), asked_since(before, io@));
            }
            match plan {
                Ok(p) => {
                    proof {
                        lemma_split_step(
                            files@,
                            self@,
                            counter as int,
                            asked_since(start, before),
                            asked_since(before, io@),
                            plans@,
                            marks,
                            p,
                        );
                        marks = marks.push(asked_since(start, io@).len() as int);
                    }
                    plans.push(p);
                },
                Err(e) => {
                    return Err(e);
                },
            }
            counter = counter + 1;
        }
        assert(files@.take(files@.len() as int) =~= files@);
        assert(split_per_file(files@, self@, asked_since(start, io@), plans@, marks));
        Ok(plans)
    }

    /// Plans one file (see `plan_asked`).
    fn plan_single<H: Host>(&self, path: &str, counter: usize, io: &mut Session<H>) -> (r: Result<RenamePlan>)
        requires
            forall|k: int| 0 <= k < self@.len() ==> rule_fits(self@[k], counter as nat),
        ensures
            extends(old(io)@, final(io)@),
            only_queries(asked_since(old(io)@, final(io)@)),
            r is Ok <==> plannable(path@, self@),
            r matches Ok(p) ==> plan_outcome_ok(path@, self@, counter as nat, p) && plan_asked(
                path@,
                self@,
                counter as nat,
                asked_since(old(io)@, final(io)@),
                p,
            ),
            r matches Err(e) ==> plan_error(path@, self@, e),
    {
        let ghost start = io@;
        proof {
            lemma_asked_none(start);
        }
        let filename = match file_name(path) {
            Some(n) => n,
            None => {
                return Err(NomforgeError::FileNotFound(path.to_owned()));
            },
        };
        let (stem, ext_opt) = split_name(filename.as_str());
        let extension = match ext_opt {
            Some(e) => e,
            None => String::new(),
        };
        let parent_dir = match parent(path) {
            Some(d) => d,
            None => {
                let mut dot: Vec<char> = Vec::new();
                dot.push('.');
                assert(dot@ =~= seq!['.']);
                string_from_chars(dot.as_slice())
            },
        };
        assert(parent_dir@ == target_dir(path@));
        assert((stem@, extension@) == source_stem_ext(path@));
        let metadata = match io.file_metadata(path) {
            Some(m) => m,
            None => FileMetadata { size: 0, modified: None, created: None },
        };
        let ghost meta = io@;
        proof {
            lemma_asked_push(start, start, HostCall::Metadata { path: path@ });
        }
        let mut ctx = RenameContext {
            filename,
            stem: stem.clone(),
            extension: extension.clone(),
            parent_dir: parent_dir.clone(),
            counter,
            metadata,
        };
        // Apply rules in order, each rule sees the result of the previous one
        let mut current_stem = stem;
        let mut current_ext = extension;
        let mut k: usize = 0;
        assert(self.rules@.skip(0) =~= self.rules@);
        while k < self.rules.len()
            invariant
                k <= self.rules@.len(),
                self@ == self.rules@,
                io@ == meta,
                start == old(io)@,
                extends(start, meta),
                asked_since(start, meta) == seq![HostCall::Metadata { path: path@ }],
                file_name_of(path@) is Some,
                ctx.counter == counter,
                forall|j: int| 0 <= j < self@.len() ==> rule_fits(self@[j], counter as nat),
                forall|j: int| 0 <= j < k ==> rule_valid(self@[j]),
                chained(self@, source_stem_ext(path@).0, source_stem_ext(path@).1, counter as nat)
                    == chained(self@.skip(k as int), current_stem@, current_ext@, counter as nat),
            decreases self.rules@.len() - k,
        {
            let rule = &self.rules[k];
            ctx.stem = current_stem.clone();
            ctx.extension = current_ext.clone();
            let new_stem = match rule.apply(&ctx) {
                Ok(s) => s,
                Err(e) => {
                    proof {
                        assert(!rule_valid(self@[k as int]));
                        assert(rule_error(self@[k as int], e));
                        assert(first_rule_error(self@, e));
                        assert(file_name_of(path@) is Some);
                    }
                    return Err(e);
                },
            };
            let ghost rest = self@.skip(k as int);
            assert(rest.drop_first() =~= self@.skip(k as int + 1));
            assert(rest[0] == self@[k as int]);
            let ghost old_ext = current_ext@;
            current_stem = new_stem;
            // Track extension changes from ChangeExtension rules
            match rule {
                RenameRule::ChangeExtension { new_ext } => {
                    match new_ext {
                        None => {},
                        Some(e) => {
                            if e.as_str().is_empty() {
                                current_ext = String::new();
                            } else {
                                current_ext = e.clone();
                            }
                        },
                    }
                },
                _ => {},
            }
            assert(current_ext@ == crate::engine::rule_extension(self@[k as int], old_ext));
            k = k + 1;
        }
        assert(self@.skip(k as int) =~= Seq::<RenameRule>::empty());
        let name = name_of(current_stem.as_str(), current_ext.as_str());
        let target = join(parent_dir.as_str(), name.as_str());
        // Truncate filename if it exceeds OS limits
        let target = match file_name(target.as_str()) {
            Some(n) => {
                let n_chars = chars_of(n.as_str());
                if utf8_len_capped(n_chars.as_slice(), 256) > 255 {
                    let truncated = truncate_stem(current_stem.as_str(), current_ext.as_str());
                    let short_name = name_of(truncated.as_str(), current_ext.as_str());
                    join(parent_dir.as_str(), short_name.as_str())
                } else {
                    target
                }
            },
            None => target,
        };
        assert(target@ == fitted_target(path@, self@, counter as nat));
        assert(asked_since(start, io@) == seq![HostCall::Metadata { path: path@ }]);
        Ok(RenamePlan { source: path.to_owned(), target })
    }

    /// Applies the given rename plans through the host, in order: a plan
    /// whose source is its target succeeds without asking the host; any other
    /// plan asks the host for its rename, and succeeds exactly when the host
    /// reports it done, a failure keeping the host's reason (see
    /// `apply_asked`).
    pub fn apply<H: Host>(&self, plans: &[RenamePlan], io: &mut Session<H>) -> (r: Result<Vec<RenameResult>>)
        ensures
            extends(old(io)@, final(io)@),
            r matches Ok(results) && results@.len() == plans@.len() && (forall|i: int|
                0 <= i < plans@.len() ==> applied_result(#[trigger] plans@[i], results@[i]))
                && apply_asked(plans@, asked_since(old(io)@, final(io)@), results@),
    {
        let ghost start = io@;
        proof {
            lemma_asked_none(start);
        }
        let mut results: Vec<RenameResult> = Vec::new();
        let mut i: usize = 0;
        assert(plans@.take(0) =~= Seq::<RenamePlan>::empty());
        while i < plans.len()
            invariant
                i <= plans@.len(),
                start == old(io)@,
                extends(start, io@),
                results@.len() == i,
                forall|j: int| 0 <= j < i ==> applied_result(#[trigger] plans@[j], results@[j]),
                apply_asked(plans@.take(i as int), asked_since(start, io@), results@),
            decreases plans@.len() - i,
        {
            let ghost before = io@;
            let ghost old_results = results@;
            let result = apply_single(&plans[i], io);
            results.push(result);
            proof {
                lemma_asked_chain(start, before, io@);
                let ps = plans@.take(i as int + 1);
                assert(ps.drop_last() =~= plans@.take(i as int));
                assert(ps.last() == plans@[i as int]);
                assert(results@.drop_last() =~= old_results);
                let all = asked_since(start, io@);
                if plans@[i as int].source@ != plans@[i as int].target@ {
                    assert(all.drop_last() =~= asked_since(start, before));
                    assert(all.last() == asked_since(before, io@)[0]);
                } else {
                    assert(all =~= asked_since(start, before));
                }
            }
            i = i + 1;
        }
        assert(plans@.take(plans@.len() as int) =~= plans@);
        Ok(results)
    }
}

/// What the result of carrying out a plan records: the plan's paths;
/// success without error when source and target are the same; otherwise
/// either success without error or failure with a reason.
pub open spec fn applied_result(plan: RenamePlan, result: RenameResult) -> bool {
    &&& result.source@ == plan.source@
    &&& result.target@ == plan.target@
    &&& (result.success <==> result.error is None)
    &&& (plan.source@ == plan.target@ ==> result.success)
}

/// The result of a plan given the host's answer to its rename: success
/// without error when done, otherwise failure with the host's reason.
pub open spec fn result_of(plan: RenamePlan, answer: Option<Seq<char>>, result: RenameResult) -> bool {
    &&& result.source@ == plan.source@
    &&& result.target@ == plan.target@
    &&& match answer {
        None => result.success && result.error is None,
        Some(why) => !result.success && (result.error matches Some(e) && e@ == why),
    }
}

/// What applying `plans` asks and gives: one rename per plan whose source
/// is not its target, in order, each plan's result following the host's
/// answer (see `result_of`); a plan whose source is its target asks nothing
/// and succeeds.
pub open spec fn apply_asked(plans: Seq<RenamePlan>, asked: Seq<HostCall>, results: Seq<RenameResult>) -> bool
    decreases plans.len(),
{
    if plans.len() == 0 {
        asked.len() == 0 && results.len() == 0
    } else {
        let p = plans.last();
        let r = results.last();
        &&& results.len() == plans.len()
        &&& if p.source@ == p.target@ {
            &&& apply_asked(plans.drop_last(), asked, results.drop_last())
            &&& result_of(p, None, r)
        } else {
            &&& asked.len() >= 1
            &&& apply_asked(plans.drop_last(), asked.drop_last(), results.drop_last())
            &&& asked.last() matches HostCall::Rename { from, to, answer } && from == p.source@ && to == p.target@
                && result_of(p, answer, r)
        }
    }
}

/// Carries out one plan (see `apply_asked`).
fn apply_single<H: Host>(plan: &RenamePlan, io: &mut Session<H>) -> (r: RenameResult)
    ensures
        extends(old(io)@, final(io)@),
        applied_result(*plan, r),
        plan.source@ == plan.target@ ==> asked_since(old(io)@, final(io)@).len() == 0 && result_of(*plan, None, r),
        plan.source@ != plan.target@ ==> asked_since(old(io)@, final(io)@).len() == 1 && (asked_since(
            old(io)@,
            final(io)@,
        )[0] matches HostCall::Rename { from, to, answer } && from == plan.source@ && to == plan.target@
            && result_of(*plan, answer, r)),
{
    let ghost start = io@;
    proof {
        lemma_asked_none(start);
    }
    if crate::text::same_text(plan.source.as_str(), plan.target.as_str()) {
        return RenameResult { source: plan.source.clone(), target: plan.target.clone(), success: true, error: None };
    }
    let outcome = io.rename_file(plan.source.as_str(), plan.target.as_str());
    proof {
        lemma_asked_push(start, start, HostCall::Rename {
            from: plan.source@,
            to: plan.target@,
            answer: crate::host::failure_of(outcome),
        });
    }
    match outcome {
        Ok(()) => RenameResult { source: plan.source.clone(), target: plan.target.clone(), success: true, error: None },
        Err(e) => RenameResult {
            source: plan.source.clone(),
            target: plan.target.clone(),
            success: false,
            error: Some(e),
        },
    }
}

} // verus!
