//! The graphical front end's state.
//!
//! The window itself is drawn outside the library; here are the settings it
//! edits and the rules and scan options they describe (its actions are in
//! `frontend`).

use vstd::prelude::*;
use crate::conflict::Conflict;
use crate::engine::{RenamePlan, RenameResult};
use crate::error::{NomforgeError, Result};
use crate::order::texts;
use crate::rules::{Case, RenameRule, RuleModel, rule_models};
use crate::scanner::ScanOptions;
use crate::cli::case_named;
use crate::text::{chars_of, push_all, split_chars, split_on, string_from_chars};
use crate::unicode::{trim_chars, trimmed};

verus! {

/// Application state for the graphical interface.
#[derive(Debug)]
pub struct State {
    /// Target directory to scan.
    pub dir: String,
    /// Rule configuration.
    pub find: String,
    pub replace: String,
    pub regex: String,
    pub replacement: String,
    pub prefix: String,
    pub suffix: String,
    pub remove: String,
    pub case: String,
    pub counter_start: usize,
    pub counter_padding: usize,
    pub counter_position: String,
    /// File filtering: extensions as a comma-separated list.
    pub filter_ext: String,
    pub include_pattern: String,
    pub exclude: String,
    pub recursive: bool,
    pub hidden: bool,
    /// Extension change rule.
    pub ext_change: String,
    /// Undo settings.
    pub history_file: String,
    pub no_undo: bool,
    pub show_undo_modal: bool,
    /// Whether the regex and counter fields are shown.
    pub advanced_mode: bool,
    /// Output / results.
    pub verbose: bool,
    /// Files found by scanner.
    pub files: Vec<String>,
    /// Generated rename plans.
    pub plans: Vec<RenamePlan>,
    /// Results after applying renames.
    pub results: Vec<RenameResult>,
    /// Conflicts found in the current plans.
    pub pending_conflicts: Vec<Conflict>,
    /// Whether the conflict confirmation is shown.
    pub show_conflict_modal: bool,
    /// Status message.
    pub status: String,
    /// Whether a rename has been applied.
    pub applied: bool,
}

/// The text `Ready`.
fn ready() -> (r: String)
    ensures
        r@ == "Ready"@,
{
    string_from_chars(chars_of("Ready").as_slice())
}

/// A state as the application starts: every field empty or off, counter
/// numbering from 1 in front of the name, status `Ready`.
pub open spec fn is_fresh(s: State) -> bool {
    &&& s.dir@.len() == 0
    &&& s.find@.len() == 0
    &&& s.replace@.len() == 0
    &&& s.regex@.len() == 0
    &&& s.replacement@.len() == 0
    &&& s.prefix@.len() == 0
    &&& s.suffix@.len() == 0
    &&& s.remove@.len() == 0
    &&& s.case@.len() == 0
    &&& s.counter_start == 1
    &&& s.counter_padding == 0
    &&& s.counter_position@ == "prefix"@
    &&& s.filter_ext@.len() == 0
    &&& s.include_pattern@.len() == 0
    &&& s.exclude@.len() == 0
    &&& !s.recursive
    &&& !s.hidden
    &&& s.ext_change@.len() == 0
    &&& s.history_file@.len() == 0
    &&& !s.no_undo
    &&& !s.show_undo_modal
    &&& !s.advanced_mode
    &&& !s.verbose
    &&& s.files@.len() == 0
    &&& s.plans@.len() == 0
    &&& s.results@.len() == 0
    &&& s.pending_conflicts@.len() == 0
    &&& !s.show_conflict_modal
    &&& s.status@ == "Ready"@
    &&& !s.applied
}

impl Default for State {
    fn default() -> (r: Self)
        ensures
            is_fresh(r),
    {
        State {
            dir: String::new(),
            find: String::new(),
            replace: String::new(),
            regex: String::new(),
            replacement: String::new(),
            prefix: String::new(),
            suffix: String::new(),
            remove: String::new(),
            case: String::new(),
            counter_start: 1,
            counter_padding: 0,
            counter_position: string_from_chars(chars_of("prefix").as_slice()),
            filter_ext: String::new(),
            include_pattern: String::new(),
            exclude: String::new(),
            recursive: false,
            hidden: false,
            ext_change: String::new(),
            history_file: String::new(),
            no_undo: false,
            show_undo_modal: false,
            advanced_mode: false,
            verbose: false,
            files: Vec::new(),
            plans: Vec::new(),
            results: Vec::new(),
            pending_conflicts: Vec::new(),
            show_conflict_modal: false,
            status: ready(),
            applied: false,
        }
    }
}

/// A rule when its field is filled in.
pub open spec fn when_filled(field: String, rule: RuleModel) -> Seq<RuleModel> {
    if field@.len() > 0 {
        seq![rule]
    } else {
        Seq::<RuleModel>::empty()
    }
}

/// The rules the state describes: find/replace (when either field is
/// filled), regex, prefix, suffix, removal, case (when it names one) and
/// extension change, in that order.
pub open spec fn state_rules(s: State) -> Seq<RuleModel> {
    let fr = if s.find@.len() > 0 || s.replace@.len() > 0 {
        seq![RuleModel::FindReplace { find: s.find@, replace: s.replace@ }]
    } else {
        Seq::<RuleModel>::empty()
    };
    let cs = if s.case@.len() > 0 {
        match case_named(s.case@) {
            Some(c) => seq![RuleModel::CaseTransform(c)],
            None => Seq::<RuleModel>::empty(),
        }
    } else {
        Seq::<RuleModel>::empty()
    };
    fr + when_filled(s.regex, RuleModel::RegexReplace { pattern: s.regex@, replacement: s.replacement@ })
        + when_filled(s.prefix, RuleModel::Prefix(s.prefix@)) + when_filled(s.suffix, RuleModel::Suffix(s.suffix@))
        + when_filled(s.remove, RuleModel::RemoveText(s.remove@)) + cs + when_filled(
        s.ext_change,
        RuleModel::ChangeExtension { new_ext: Some(s.ext_change@) },
    )
}

/// The case field is filled with something that is not a case.
pub open spec fn case_invalid(s: State) -> bool {
    s.case@.len() > 0 && case_named(s.case@) is None
}

/// The extensions listed in a comma-separated field: the pieces, trimmed,
/// without empty ones.
pub open spec fn listed_extensions(pieces: Seq<Seq<char>>) -> Seq<Seq<char>>
    decreases pieces.len(),
{
    if pieces.len() == 0 {
        Seq::<Seq<char>>::empty()
    } else {
        let rest = listed_extensions(pieces.drop_last());
        let t = trimmed(pieces.last());
        if t.len() > 0 {
            rest.push(t)
        } else {
            rest
        }
    }
}

/// An optional filter from a text field: none when the field is empty.
pub open spec fn filled(field: String) -> Option<String> {
    if field@.len() > 0 {
        Some(field)
    } else {
        None
    }
}

/// The rules carry no sequence number.
pub open spec fn without_counter(rules: Seq<RenameRule>) -> bool {
    forall|k: int| 0 <= k < rules.len() ==> !(#[trigger] rules[k] is NumberSequence)
}

fn copy_if_filled(field: &String) -> (r: Option<String>)
    ensures
        r == filled(*field),
{
    if field.as_str().is_empty() {
        None
    } else {
        Some(field.clone())
    }
}

fn push_if_filled(rules: &mut Vec<RenameRule>, field: &String, rule: RenameRule)
    requires
        !(rule is NumberSequence),
    ensures
        rule_models(final(rules)@) == rule_models(old(rules)@) + when_filled(*field, rule@),
        without_counter(old(rules)@) ==> without_counter(final(rules)@),
{
    let ghost before = rules@;
    if !field.as_str().is_empty() {
        rules.push(rule);
    }
    assert(rule_models(rules@) =~= rule_models(before) + when_filled(*field, rule@));
}

/// The concatenation of two texts.
fn text2(a: &str, b: &str) -> (r: String)
    ensures
        r@ == a@ + b@,
{
    let mut v = chars_of(a);
    push_all(&mut v, chars_of(b).as_slice());
    string_from_chars(v.as_slice())
}

impl State {
    /// Builds rules from the current state (see `state_rules`); a case field
    /// that names no case gives a `Conflict` error saying so.
    pub fn build_rules(&self) -> (r: Result<Vec<RenameRule>>)
        ensures
            case_invalid(*self) <==> r is Err,
            r matches Ok(rules) ==> rule_models(rules@) == state_rules(*self) && without_counter(rules@),
            r matches Err(e) ==> (e matches NomforgeError::Conflict(m) && m@ == "Invalid case: "@ + self.case@),
    {
        let mut rules: Vec<RenameRule> = Vec::new();
        if !self.find.as_str().is_empty() || !self.replace.as_str().is_empty() {
            rules.push(RenameRule::FindReplace { find: self.find.clone(), replace: self.replace.clone() });
        }
        let ghost fr = rule_models(rules@);
        push_if_filled(
            &mut rules,
            &self.regex,
            RenameRule::RegexReplace { pattern: self.regex.clone(), replacement: self.replacement.clone() },
        );
        push_if_filled(&mut rules, &self.prefix, RenameRule::Prefix(self.prefix.clone()));
        push_if_filled(&mut rules, &self.suffix, RenameRule::Suffix(self.suffix.clone()));
        push_if_filled(&mut rules, &self.remove, RenameRule::RemoveText(self.remove.clone()));
        let ghost before_case = rule_models(rules@);
        if !self.case.as_str().is_empty() {
            let lowered = crate::unicode::to_lowercase(self.case.as_str());
            let case = match crate::cli::case_for_word(lowered.as_str()) {
                Some(c) => c,
                None => {
                    return Err(NomforgeError::Conflict(text2("Invalid case: ", self.case.as_str())));
                },
            };
            rules.push(RenameRule::CaseTransform(case));
        }
        let ghost cs = if self.case@.len() > 0 {
            match case_named(self.case@) {
                Some(c) => seq![RuleModel::CaseTransform(c)],
                None => Seq::<RuleModel>::empty(),
            }
        } else {
            Seq::<RuleModel>::empty()
        };
        assert(rule_models(rules@) =~= before_case + cs);
        push_if_filled(
            &mut rules,
            &self.ext_change,
            RenameRule::ChangeExtension { new_ext: Some(self.ext_change.clone()) },
        );
        assert(rule_models(rules@) =~= state_rules(*self));
        Ok(rules)
    }

    /// Builds scan options from the current state: recursion and hidden
    /// files as set, the include and exclude patterns when filled, and the
    /// listed extensions when there are any.
    pub fn build_scan_options(&self) -> (r: ScanOptions)
        ensures
            scan_options_of(*self, r),
    {
        let extensions = if self.filter_ext.as_str().is_empty() {
            None
        } else {
            let pieces = split_chars(self.filter_ext.as_str(), ',');
            let ghost all = split_on(self.filter_ext@, ',');
            let mut exts: Vec<String> = Vec::new();
            let mut i: usize = 0;
            assert(all.take(0) =~= Seq::<Seq<char>>::empty());
            while i < pieces.len()
                invariant
                    i <= pieces@.len(),
                    pieces@.len() == all.len(),
                    forall|k: int| 0 <= k < pieces@.len() ==> #[trigger] pieces@[k]@ == all[k],
                    texts(exts@) == listed_extensions(all.take(i as int)),
                decreases pieces@.len() - i,
            {
                let t = trim_chars(pieces[i].as_slice());
                assert(all.take(i as int + 1).drop_last() =~= all.take(i as int));
                assert(all.take(i as int + 1).last() == all[i as int]);
                if t.len() > 0 {
                    let ghost before = exts@;
                    exts.push(string_from_chars(t.as_slice()));
                    assert(texts(exts@) =~= texts(before).push(t@));
                }
                i = i + 1;
            }
            assert(all.take(all.len() as int) =~= all);
            if exts.len() == 0 {
                None
            } else {
                Some(exts)
            }
        };
        ScanOptions {
            extensions,
            recursive: self.recursive,
            include_pattern: copy_if_filled(&self.include_pattern),
            exclude_pattern: copy_if_filled(&self.exclude),
            include_hidden: self.hidden,
        }
    }

    /// Resets results and plans: no files, plans or results, nothing
    /// applied, status `Ready`; everything else is kept.
    pub fn reset_output(&mut self)
        ensures
            final(self).files@.len() == 0,
            final(self).plans@.len() == 0,
            final(self).results@.len() == 0,
            !final(self).applied,
            final(self).status@ == "Ready"@,
            same_settings(*old(self), *final(self)),
            final(self).pending_conflicts == old(self).pending_conflicts,
            final(self).show_conflict_modal == old(self).show_conflict_modal,
    {
        self.files.clear();
        self.plans.clear();
        self.results.clear();
        self.applied = false;
        self.status = ready();
    }
}

/// The scan options a state describes: recursion and hidden files as set,
/// the include and exclude patterns when filled, and the listed extensions
/// when there are any.
pub open spec fn scan_options_of(s: State, r: ScanOptions) -> bool {
    &&& r.recursive == s.recursive
    &&& r.include_hidden == s.hidden
    &&& r.include_pattern == filled(s.include_pattern)
    &&& r.exclude_pattern == filled(s.exclude)
    &&& match r.extensions {
        Some(v) => s.filter_ext@.len() > 0 && texts(v@) == listed_extensions(split_on(s.filter_ext@, ','))
            && v@.len() > 0,
        None => s.filter_ext@.len() == 0 || listed_extensions(split_on(s.filter_ext@, ',')).len() == 0,
    }
}

/// Two states have the same settings (everything the user edits).
pub open spec fn same_settings(a: State, b: State) -> bool {
    &&& a.dir == b.dir
    &&& a.find == b.find
    &&& a.replace == b.replace
    &&& a.regex == b.regex
    &&& a.replacement == b.replacement
    &&& a.prefix == b.prefix
    &&& a.suffix == b.suffix
    &&& a.remove == b.remove
    &&& a.case == b.case
    &&& a.counter_start == b.counter_start
    &&& a.counter_padding == b.counter_padding
    &&& a.counter_position == b.counter_position
    &&& a.filter_ext == b.filter_ext
    &&& a.include_pattern == b.include_pattern
    &&& a.exclude == b.exclude
    &&& a.recursive == b.recursive
    &&& a.hidden == b.hidden
    &&& a.ext_change == b.ext_change
    &&& a.history_file == b.history_file
    &&& a.no_undo == b.no_undo
    &&& a.show_undo_modal == b.show_undo_modal
    &&& a.advanced_mode == b.advanced_mode
    &&& a.verbose == b.verbose
}

} // verus!
