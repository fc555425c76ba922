//! Conflict detection between rename plans.

use vstd::prelude::*;
use crate::engine::RenamePlan;
use crate::host::{asked_since, extends, is_query, lemma_asked_none, lemma_asked_push, only_queries, Host, HostCall, Session};
use crate::text::{chars_of, push_all, string_from_chars};

verus! {

/// A conflict detected between two rename plans (the same plan twice for a
/// target that exists).
#[derive(Debug, Clone)]
pub struct Conflict {
    pub plan_a: usize,
    pub plan_b: usize,
    pub reason: ConflictReason,
}

/// Why a conflict was detected.
#[derive(Debug, Clone)]
pub enum ConflictReason {
    /// Two plans map to the same target path.
    SameTarget(String),
    /// The target path already exists on disk.
    TargetExists(String),
}

/// A conflict as (first plan, second plan, whether it is a duplicate target,
/// the path concerned).
pub type ConflictView = (int, int, bool, Seq<char>);

impl View for Conflict {
    type V = ConflictView;

    open spec fn view(&self) -> ConflictView {
        match self.reason {
            ConflictReason::SameTarget(p) => (self.plan_a as int, self.plan_b as int, true, p@),
            ConflictReason::TargetExists(p) => (self.plan_a as int, self.plan_b as int, false, p@),
        }
    }
}

/// The first plan in `lo..hi` whose target is `t`, or `-1`.
pub open spec fn first_with_target(plans: Seq<RenamePlan>, t: Seq<char>, lo: int, hi: int) -> int
    decreases hi - lo,
{
    if lo >= hi {
        -1
    } else if plans[lo].target@ == t {
        lo
    } else {
        first_with_target(plans, t, lo + 1, hi)
    }
}

/// The conflicts reported for plan `i`, given whether its target was found
/// on disk: first `TargetExists` when it renames onto an existing path, then
/// `SameTarget` with the first earlier plan that has the same target.
pub open spec fn conflicts_for(plans: Seq<RenamePlan>, exists: Seq<bool>, i: int) -> Seq<ConflictView> {
    let p = plans[i];
    let taken = if p.source@ != p.target@ && exists[i] {
        seq![(i, i, false, p.target@)]
    } else {
        Seq::<ConflictView>::empty()
    };
    let j = first_with_target(plans, p.target@, 0, i);
    let dup = if j >= 0 {
        seq![(j, i, true, p.target@)]
    } else {
        Seq::<ConflictView>::empty()
    };
    taken + dup
}

/// The conflicts of the first `n` plans, in plan order.
pub open spec fn conflicts_upto(plans: Seq<RenamePlan>, exists: Seq<bool>, n: int) -> Seq<ConflictView>
    decreases n,
{
    if n <= 0 {
        Seq::<ConflictView>::empty()
    } else {
        conflicts_upto(plans, exists, n - 1) + conflicts_for(plans, exists, n - 1)
    }
}

/// The first plan before `i` whose target equals plan `i`'s.
fn first_same_target(plans: &[RenamePlan], i: usize) -> (r: Option<usize>)
    requires
        i < plans@.len(),
    ensures
        match r {
            Some(j) => j == first_with_target(plans@, plans@[i as int].target@, 0, i as int),
            None => first_with_target(plans@, plans@[i as int].target@, 0, i as int) == -1,
        },
{
    let mut j: usize = 0;
    while j < i
        invariant
            j <= i < plans@.len(),
            first_with_target(plans@, plans@[i as int].target@, 0, i as int)
                == first_with_target(plans@, plans@[i as int].target@, j as int, i as int),
        decreases i - j,
    {
        if plans[j].target == plans[i].target {
            return Some(j);
        }
        j = j + 1;
    }
    None
}

/// Detects conflicts between rename plans given, for each plan, whether its
/// target was found to exist (consulted only for plans that change a path):
/// a `TargetExists` conflict for each plan that renames onto an existing
/// path, and a `SameTarget` conflict pairing each plan with the first earlier
/// plan that has the same target.
pub fn conflicts_given(plans: &[RenamePlan], exists: &[bool]) -> (r: Vec<Conflict>)
    requires
        exists@.len() == plans@.len(),
    ensures
        r@.len() == conflicts_upto(plans@, exists@, plans@.len() as int).len(),
        forall|k: int| 0 <= k < r@.len() ==> #[trigger] r@[k]@ == conflicts_upto(plans@, exists@, plans@.len() as int)[k],
{
    let mut conflicts: Vec<Conflict> = Vec::new();
    let mut i: usize = 0;
    while i < plans.len()
        invariant
            i <= plans@.len(),
            exists@.len() == plans@.len(),
            conflicts@.len() == conflicts_upto(plans@, exists@, i as int).len(),
            forall|k: int| 0 <= k < conflicts@.len() ==> #[trigger] conflicts@[k]@ == conflicts_upto(plans@, exists@, i as int)[k],
        decreases plans@.len() - i,
    {
        let ghost before = conflicts_upto(plans@, exists@, i as int);
        let ghost here = conflicts_for(plans@, exists@, i as int);
        let ghost start = conflicts@.len();
        let changes = plans[i].source != plans[i].target;
        if changes && exists[i] {
            conflicts.push(Conflict { plan_a: i, plan_b: i, reason: ConflictReason::TargetExists(plans[i].target.clone()) });
        }
        let ghost mid = conflicts@.len();
        match first_same_target(plans, i) {
            Some(j) => {
                conflicts.push(Conflict { plan_a: j, plan_b: i, reason: ConflictReason::SameTarget(plans[i].target.clone()) });
            },
            None => {},
        }
        proof {
            let after = conflicts_upto(plans@, exists@, i as int + 1);
            assert(after == before + here);
            assert(conflicts@.len() == after.len());
            assert forall|k: int| 0 <= k < conflicts@.len() implies #[trigger] conflicts@[k]@ == after[k] by {
                if k < start {
                } else {
                    assert(after[k] == here[k - start]);
                }
            }
        }
        i = i + 1;
    }
    conflicts
}

/// What checking `plans` for taken targets asks and finds: for each plan
/// whose source is not its target, in order, whether its target exists,
/// the answer being the plan's flag; a plan whose source is its target asks
/// nothing and is flagged `false`.
pub open spec fn conflict_checks(plans: Seq<RenamePlan>, asked: Seq<HostCall>, flags: Seq<bool>) -> bool
    decreases plans.len(),
{
    if plans.len() == 0 {
        asked.len() == 0 && flags.len() == 0
    } else {
        let p = plans.last();
        &&& flags.len() == plans.len()
        &&& if p.source@ == p.target@ {
            !flags.last() && conflict_checks(plans.drop_last(), asked, flags.drop_last())
        } else {
            &&& asked.len() >= 1
            &&& asked.last() == (HostCall::Exists { path: p.target@, answer: flags.last() })
            &&& conflict_checks(plans.drop_last(), asked.drop_last(), flags.drop_last())
        }
    }
}

/// Checking targets for conflicts only reads.
pub proof fn lemma_checks_only_read(plans: Seq<RenamePlan>, asked: Seq<HostCall>, flags: Seq<bool>)
    requires
        conflict_checks(plans, asked, flags),
    ensures
        only_queries(asked),
    decreases plans.len(),
{
    if plans.len() > 0 {
        let p = plans.last();
        if p.source@ == p.target@ {
            lemma_checks_only_read(plans.drop_last(), asked, flags.drop_last());
        } else {
            lemma_checks_only_read(plans.drop_last(), asked.drop_last(), flags.drop_last());
            assert forall|k: int| 0 <= k < asked.len() implies is_query(#[trigger] asked[k]) by {
                if k < asked.len() - 1 {
                    assert(asked[k] == asked.drop_last()[k]);
                }
            }
        }
    }
}

/// Detects conflicts between rename plans, asking the host whether each
/// changed target exists (see `conflict_checks`), and reporting what
/// `conflicts_given` reports for those answers.
///
/// Whether a target exists can change between this check and a rename; this
/// is accepted for short-lived runs.
pub fn detect_conflicts<H: Host>(plans: &[RenamePlan], io: &mut Session<H>) -> (r: Vec<Conflict>)
    ensures
        extends(old(io)@, final(io)@),
        only_queries(asked_since(old(io)@, final(io)@)),
        exists|flags: Seq<bool>|
            #![trigger conflict_checks(plans@, asked_since(old(io)@, final(io)@), flags)]
            conflict_checks(plans@, asked_since(old(io)@, final(io)@), flags) && r@.len() == conflicts_upto(
                plans@,
                flags,
                plans@.len() as int,
            ).len() && forall|k: int|
                0 <= k < r@.len() ==> #[trigger] r@[k]@ == conflicts_upto(plans@, flags, plans@.len() as int)[k],
{
    let ghost start = io@;
    proof {
        lemma_asked_none(start);
    }
    let mut found: Vec<bool> = Vec::new();
    let mut i: usize = 0;
    assert(plans@.take(0) =~= Seq::<RenamePlan>::empty());
    while i < plans.len()
        invariant
            i <= plans@.len(),
            found@.len() == i,
            start == old(io)@,
            extends(start, io@),
            conflict_checks(plans@.take(i as int), asked_since(start, io@), found@),
        decreases plans@.len() - i,
    {
        let ghost before = io@;
        let ghost old_found = found@;
        let e = if plans[i].source != plans[i].target {
            let answer = io.path_exists(plans[i].target.as_str());
            proof {
                lemma_asked_push(start, before, HostCall::Exists { path: plans@[i as int].target@, answer });
            }
            answer
        } else {
            false
        };
        found.push(e);
        proof {
            let ps = plans@.take(i as int + 1);
            assert(ps.drop_last() =~= plans@.take(i as int));
            assert(ps.last() == plans@[i as int]);
            assert(found@.drop_last() =~= old_found);
            if plans@[i as int].source@ != plans@[i as int].target@ {
                assert(asked_since(start, io@).drop_last() =~= asked_since(start, before));
            }
        }
        i = i + 1;
    }
    assert(plans@.take(plans@.len() as int) =~= plans@);
    proof {
        lemma_checks_only_read(plans@, asked_since(start, io@), found@);
    }
    conflicts_given(plans, found.as_slice())
}

impl ConflictReason {
    /// A one-line description: `duplicate target: <path>` or
    /// `target already exists: <path>`.
    pub fn describe(&self) -> (r: String)
        ensures
            r@ == match *self {
                ConflictReason::SameTarget(p) => "duplicate target: "@ + p@,
                ConflictReason::TargetExists(p) => "target already exists: "@ + p@,
            },
    {
        match self {
            ConflictReason::SameTarget(p) => {
                let mut v = chars_of("duplicate target: ");
                push_all(&mut v, chars_of(p.as_str()).as_slice());
                string_from_chars(v.as_slice())
            },
            ConflictReason::TargetExists(p) => {
                let mut v = chars_of("target already exists: ");
                push_all(&mut v, chars_of(p.as_str()).as_slice());
                string_from_chars(v.as_slice())
            },
        }
    }
}

} // verus!
