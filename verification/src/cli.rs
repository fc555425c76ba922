//! The command-line front end: its arguments, the rules and scan options
//! they describe, and the counts its reports show.

use vstd::prelude::*;
use crate::engine::{RenamePlan, RenameResult};
use crate::error::NomforgeError;
use crate::host::{Host, HostCall, Session};
use crate::rules::{Case, RenameRule, RuleModel, SeqPosition, rule_models};
use crate::scanner::ScanOptions;
use crate::path::{file_name, file_name_of};
use crate::text::{chars_of, decimal, decimal_chars, push_all, same_text, string_from_chars};
use crate::unicode::{lowercase, to_lowercase};

verus! {

/// nomforge — bulk file renamer
#[derive(Debug)]
pub struct Cli {
    pub command: Commands,
}

/// The subcommands.
#[derive(Debug)]
pub enum Commands {
    /// Rename files using rules
    Rename(Box<RenameArgs>),
    /// Undo the last rename operation
    Undo(UndoArgs),
}

/// Arguments for the rename command.
#[derive(Debug, Clone)]
pub struct RenameArgs {
    /// Target directory to scan
    pub dir: String,
    /// Plain text to find in filename
    pub find: Option<String>,
    /// Replacement text (pairs with --find)
    pub replace: Option<String>,
    /// Regex pattern to match in filename
    pub regex: Option<String>,
    /// Replacement string for regex (pairs with --regex, supports $1, $2, etc.)
    pub replacement: Option<String>,
    /// Add prefix to filename
    pub prefix: Option<String>,
    /// Add suffix to filename
    pub suffix: Option<String>,
    /// Remove all occurrences of this text
    pub remove: Option<String>,
    /// Transform case: upper, lower, title
    pub case: Option<String>,
    /// Counter start value (1 when only the padding is given)
    pub counter_start: Option<usize>,
    /// Counter zero-padding width (0 when only the start is given)
    pub counter_padding: Option<usize>,
    /// Counter position: prefix, suffix, replace
    pub counter_position: String,
    /// Filter by file extension (repeatable)
    pub ext: Option<Vec<String>>,
    /// Include only files matching this regex pattern
    pub include_pattern: Option<String>,
    /// Exclude files matching this regex pattern
    pub exclude: Option<String>,
    /// Scan subdirectories recursively
    pub recursive: bool,
    /// Include hidden files (starting with .)
    pub hidden: bool,
    /// Actually apply renames (default is dry-run)
    pub apply: bool,
    /// Skip logging to undo history
    pub no_undo: bool,
    /// Custom undo log file path
    pub history_file: Option<String>,
    /// Show detailed output
    pub verbose: bool,
}

/// Arguments for the undo command.
#[derive(Debug, Clone)]
pub struct UndoArgs {
    /// Custom undo log file path
    pub history_file: Option<String>,
}

/// Why the arguments describe no usable rule list.
#[derive(Debug, Clone)]
pub enum ArgsError {
    /// `--case` is not upper, lower or title.
    InvalidCase(String),
    /// `--counter-position` is not prefix, suffix or replace.
    InvalidCounterPosition(String),
    /// No rule was asked for.
    NoRules,
}

/// The case a name selects, ignoring letter case.
pub open spec fn case_named(name: Seq<char>) -> Option<Case> {
    case_of_word(lowercase(name))
}

/// The case a lower-case word names: `upper`, `lower` or `title`.
pub open spec fn case_of_word(word: Seq<char>) -> Option<Case> {
    if word == "upper"@ {
        Some(Case::Upper)
    } else if word == "lower"@ {
        Some(Case::Lower)
    } else if word == "title"@ {
        Some(Case::Title)
    } else {
        None
    }
}

/// The counter position a name selects, ignoring letter case.
pub open spec fn position_named(name: Seq<char>) -> Option<SeqPosition> {
    position_of_word(lowercase(name))
}

/// The counter position a lower-case word names: `prefix`, `suffix` or
/// `replace` (the whole stem).
pub open spec fn position_of_word(word: Seq<char>) -> Option<SeqPosition> {
    if word == "prefix"@ {
        Some(SeqPosition::Prefix)
    } else if word == "suffix"@ {
        Some(SeqPosition::Suffix)
    } else if word == "replace"@ {
        Some(SeqPosition::ReplaceStem)
    } else {
        None
    }
}

/// The text of an optional string, empty when absent.
pub open spec fn text_or_empty(s: Option<String>) -> Seq<char> {
    match s {
        Some(t) => t@,
        None => Seq::<char>::empty(),
    }
}

/// The find & replace rule, when `--find` is given.
pub open spec fn find_part(args: RenameArgs) -> Seq<RuleModel> {
    match args.find {
        Some(f) => seq![RuleModel::FindReplace { find: f@, replace: text_or_empty(args.replace) }],
        None => Seq::<RuleModel>::empty(),
    }
}

/// The regex rule, when `--regex` is given.
pub open spec fn regex_part(args: RenameArgs) -> Seq<RuleModel> {
    match args.regex {
        Some(p) => seq![RuleModel::RegexReplace { pattern: p@, replacement: text_or_empty(args.replacement) }],
        None => Seq::<RuleModel>::empty(),
    }
}

/// The prefix rule, when `--prefix` is given.
pub open spec fn prefix_part(args: RenameArgs) -> Seq<RuleModel> {
    match args.prefix {
        Some(p) => seq![RuleModel::Prefix(p@)],
        None => Seq::<RuleModel>::empty(),
    }
}

/// The suffix rule, when `--suffix` is given.
pub open spec fn suffix_part(args: RenameArgs) -> Seq<RuleModel> {
    match args.suffix {
        Some(p) => seq![RuleModel::Suffix(p@)],
        None => Seq::<RuleModel>::empty(),
    }
}

/// The removal rule, when `--remove` is given.
pub open spec fn remove_part(args: RenameArgs) -> Seq<RuleModel> {
    match args.remove {
        Some(p) => seq![RuleModel::RemoveText(p@)],
        None => Seq::<RuleModel>::empty(),
    }
}

/// The case rule, when `--case` names a case.
pub open spec fn case_part(args: RenameArgs) -> Seq<RuleModel> {
    match args.case {
        Some(c) => match case_named(c@) {
            Some(k) => seq![RuleModel::CaseTransform(k)],
            None => Seq::<RuleModel>::empty(),
        },
        None => Seq::<RuleModel>::empty(),
    }
}

/// The counter rule, when its start or padding is given and its position is
/// known; the start defaults to 1 and the padding to 0.
pub open spec fn counter_part(args: RenameArgs) -> Seq<RuleModel> {
    if args.counter_start is Some || args.counter_padding is Some {
        match position_named(args.counter_position@) {
            Some(pos) => seq![
                RuleModel::NumberSequence {
                    start: match args.counter_start {
                        Some(v) => v,
                        None => 1,
                    },
                    padding: match args.counter_padding {
                        Some(v) => v,
                        None => 0,
                    },
                    position: pos,
                },
            ],
            None => Seq::<RuleModel>::empty(),
        }
    } else {
        Seq::<RuleModel>::empty()
    }
}

/// The rules the arguments ask for, before the case and counter settings
/// are checked: find/replace, regex, prefix, suffix, removal, case, counter,
/// in that order, each only when its option is given (the counter when its
/// start or its padding is).
pub open spec fn requested_rules(args: RenameArgs) -> Seq<RuleModel> {
    find_part(args) + regex_part(args) + prefix_part(args) + suffix_part(args) + remove_part(args) + case_part(args)
        + counter_part(args)
}

/// The error, if any, for a set of arguments: an unknown case first, then an
/// unknown counter position (when a counter is asked for), then no rules.
pub open spec fn args_problem(args: RenameArgs) -> Option<ArgsError> {
    if args.case matches Some(c) && case_named(c@) is None {
        Some(ArgsError::InvalidCase(args.case->0))
    } else if (args.counter_start is Some || args.counter_padding is Some) && position_named(
        args.counter_position@,
    ) is None {
        Some(ArgsError::InvalidCounterPosition(args.counter_position))
    } else if requested_rules(args).len() == 0 {
        Some(ArgsError::NoRules)
    } else {
        None
    }
}

/// The error kinds agree and carry the same text.
pub open spec fn same_error(a: ArgsError, b: ArgsError) -> bool {
    match (a, b) {
        (ArgsError::InvalidCase(x), ArgsError::InvalidCase(y)) => x@ == y@,
        (ArgsError::InvalidCounterPosition(x), ArgsError::InvalidCounterPosition(y)) => x@ == y@,
        (ArgsError::NoRules, ArgsError::NoRules) => true,
        _ => false,
    }
}

fn owned(s: &String) -> (r: String)
    ensures
        r@ == s@,
{
    s.clone()
}

fn owned_or_empty(s: &Option<String>) -> (r: String)
    ensures
        r@ == text_or_empty(*s),
{
    match s {
        Some(t) => t.clone(),
        None => String::new(),
    }
}

/// Checks that the directory to rename in exists, asking the host once:
/// `FileNotFound` with the directory when it does not.
pub fn require_dir<H: Host>(dir: &str, io: &mut Session<H>) -> (r: crate::error::Result<()>)
    ensures
        final(io)@ == old(io)@.push(HostCall::Exists { path: dir@, answer: r is Ok }),
        r matches Err(e) ==> (e matches NomforgeError::FileNotFound(p) && p@ == dir@),
{
    if io.path_exists(dir) {
        Ok(())
    } else {
        Err(NomforgeError::FileNotFound(dir.to_owned()))
    }
}

/// The case a lower-case word names (see `case_of_word`).
pub fn case_for_word(word: &str) -> (r: Option<Case>)
    ensures
        r == case_of_word(word@),
{
    if same_text(word, "upper") {
        Some(Case::Upper)
    } else if same_text(word, "lower") {
        Some(Case::Lower)
    } else if same_text(word, "title") {
        Some(Case::Title)
    } else {
        None
    }
}

/// The counter position a lower-case word names (see `position_of_word`).
pub fn position_for_word(word: &str) -> (r: Option<SeqPosition>)
    ensures
        r == position_of_word(word@),
{
    if same_text(word, "prefix") {
        Some(SeqPosition::Prefix)
    } else if same_text(word, "suffix") {
        Some(SeqPosition::Suffix)
    } else if same_text(word, "replace") {
        Some(SeqPosition::ReplaceStem)
    } else {
        None
    }
}

/// The case named by `name`, ignoring letter case.
fn parse_case(name: &str) -> (r: Option<Case>)
    ensures
        r == case_named(name@),
{
    case_for_word(to_lowercase(name).as_str())
}

/// The counter position named by `name`, ignoring letter case.
fn parse_position(name: &str) -> (r: Option<SeqPosition>)
    ensures
        r == position_named(name@),
{
    position_for_word(to_lowercase(name).as_str())
}

impl ArgsError {
    /// The human-readable message of this error.
    pub fn message(&self) -> (r: String)
        ensures
            r@ == match *self {
                ArgsError::InvalidCase(c) => "Invalid case transform '"@ + c@ + "'. Expected: upper, lower, title"@,
                ArgsError::InvalidCounterPosition(p) => "Invalid counter position '"@ + p@
                    + "'. Expected: prefix, suffix, replace"@,
                ArgsError::NoRules =>
                    "No rename rules specified. Use --find, --regex, --prefix, --suffix, --remove, or --case."@,
            },
    {
        match self {
            ArgsError::InvalidCase(c) => {
                let mut v = chars_of("Invalid case transform '");
                push_all(&mut v, chars_of(c.as_str()).as_slice());
                push_all(&mut v, chars_of("'. Expected: upper, lower, title").as_slice());
                string_from_chars(v.as_slice())
            },
            ArgsError::InvalidCounterPosition(p) => {
                let mut v = chars_of("Invalid counter position '");
                push_all(&mut v, chars_of(p.as_str()).as_slice());
                push_all(&mut v, chars_of("'. Expected: prefix, suffix, replace").as_slice());
                string_from_chars(v.as_slice())
            },
            ArgsError::NoRules => string_from_chars(
                chars_of("No rename rules specified. Use --find, --regex, --prefix, --suffix, --remove, or --case.").as_slice(),
            ),
        }
    }
}

/// The find & replace and regex rules the arguments ask for.
fn replace_rules(args: &RenameArgs) -> (r: Vec<RenameRule>)
    ensures
        rule_models(r@) == find_part(*args) + regex_part(*args),
{
    let mut rules: Vec<RenameRule> = Vec::new();
    // Find & Replace (plain text)
    match &args.find {
        Some(find) => {
            rules.push(RenameRule::FindReplace { find: owned(find), replace: owned_or_empty(&args.replace) });
        },
        None => {},
    }
    assert(rule_models(rules@) =~= find_part(*args));
    // Regex Replace
    let ghost before = rule_models(rules@);
    match &args.regex {
        Some(pattern) => {
            rules.push(RenameRule::RegexReplace { pattern: owned(pattern), replacement: owned_or_empty(&args.replacement) });
        },
        None => {},
    }
    assert(rule_models(rules@) =~= before + regex_part(*args));
    rules
}

/// The prefix, suffix and removal rules the arguments ask for, after `rules`.
fn affix_rules(args: &RenameArgs, rules: &mut Vec<RenameRule>)
    ensures
        rule_models(final(rules)@) == rule_models(old(rules)@) + prefix_part(*args) + suffix_part(*args)
            + remove_part(*args),
{
    let ghost start = rule_models(rules@);
    // Prefix
    match &args.prefix {
        Some(prefix) => {
            rules.push(RenameRule::Prefix(owned(prefix)));
        },
        None => {},
    }
    assert(rule_models(rules@) =~= start + prefix_part(*args));
    // Suffix
    let ghost before = rule_models(rules@);
    match &args.suffix {
        Some(suffix) => {
            rules.push(RenameRule::Suffix(owned(suffix)));
        },
        None => {},
    }
    assert(rule_models(rules@) =~= before + suffix_part(*args));
    // Remove Text
    let ghost before = rule_models(rules@);
    match &args.remove {
        Some(text) => {
            rules.push(RenameRule::RemoveText(owned(text)));
        },
        None => {},
    }
    assert(rule_models(rules@) =~= before + remove_part(*args));
}

/// Converts command-line arguments into a list of rename rules (see
/// `requested_rules` and `args_problem`).
pub fn build_rules(args: &RenameArgs) -> (r: Result<Vec<RenameRule>, ArgsError>)
    ensures
        match args_problem(*args) {
            None => r matches Ok(rules) && rule_models(rules@) == requested_rules(*args),
            Some(p) => r matches Err(e) && same_error(e, p),
        },
{
    let mut rules = replace_rules(args);
    affix_rules(args, &mut rules);
    // Case Transform
    let ghost before = rule_models(rules@);
    match &args.case {
        Some(case_str) => {
            match parse_case(case_str.as_str()) {
                Some(case) => {
                    rules.push(RenameRule::CaseTransform(case));
                },
                None => {
                    return Err(ArgsError::InvalidCase(owned(case_str)));
                },
            }
        },
        None => {},
    }
    assert(rule_models(rules@) =~= before + case_part(*args));
    // Number Sequence (only if counter_start or counter_padding is explicitly set)
    let ghost before = rule_models(rules@);
    if args.counter_start.is_some() || args.counter_padding.is_some() {
        let position = match parse_position(args.counter_position.as_str()) {
            Some(p) => p,
            None => {
                return Err(ArgsError::InvalidCounterPosition(owned(&args.counter_position)));
            },
        };
        let start = match args.counter_start {
            Some(v) => v,
            None => 1,
        };
        let padding = match args.counter_padding {
            Some(v) => v,
            None => 0,
        };
        rules.push(RenameRule::NumberSequence { start, padding, position });
    }
    assert(rule_models(rules@) =~= before + counter_part(*args));
    assert(rule_models(rules@) =~= requested_rules(*args));
    if rules.len() == 0 {
        return Err(ArgsError::NoRules);
    }
    Ok(rules)
}

/// A copy of an optional list of strings.
fn copy_list(v: &Option<Vec<String>>) -> (r: Option<Vec<String>>)
    ensures
        match *v {
            Some(x) => r matches Some(y) && y@ == x@,
            None => r is None,
        },
{
    match v {
        None => None,
        Some(x) => {
            let mut y: Vec<String> = Vec::new();
            let mut i: usize = 0;
            while i < x.len()
                invariant
                    i <= x@.len(),
                    y@ == x@.take(i as int),
                decreases x@.len() - i,
            {
                y.push(x[i].clone());
                assert(x@.take(i as int + 1) =~= x@.take(i as int).push(x@[i as int]));
                i = i + 1;
            }
            assert(x@.take(x@.len() as int) =~= x@);
            Some(y)
        },
    }
}

/// A copy of an optional string.
fn copy_text(s: &Option<String>) -> (r: Option<String>)
    ensures
        r == *s,
{
    match s {
        Some(t) => Some(t.clone()),
        None => None,
    }
}

/// Builds scan options from command-line arguments: recursion, hidden
/// files, the include and exclude patterns and the extension filter as given.
pub fn build_scan_options(args: &RenameArgs) -> (r: ScanOptions)
    ensures
        r.recursive == args.recursive,
        r.include_hidden == args.hidden,
        r.include_pattern == args.include_pattern,
        r.exclude_pattern == args.exclude,
        match args.ext {
            Some(x) => r.extensions matches Some(y) && y@ == x@,
            None => r.extensions is None,
        },
{
    ScanOptions {
        recursive: args.recursive,
        include_pattern: copy_text(&args.include_pattern),
        exclude_pattern: copy_text(&args.exclude),
        extensions: copy_list(&args.ext),
        include_hidden: args.hidden,
    }
}

/// Number of plans that change a path.
pub open spec fn changed_count(plans: Seq<RenamePlan>) -> nat
    decreases plans.len(),
{
    if plans.len() == 0 {
        0
    } else {
        changed_count(plans.drop_last()) + if plans.last().source@ != plans.last().target@ { 1nat } else { 0nat }
    }
}

/// How many of the plans would rename a file.
pub fn count_changed(plans: &[RenamePlan]) -> (r: usize)
    ensures
        r == changed_count(plans@),
{
    let mut n: usize = 0;
    let mut i: usize = 0;
    assert(plans@.take(0) =~= Seq::<RenamePlan>::empty());
    while i < plans.len()
        invariant
            i <= plans@.len(),
            n == changed_count(plans@.take(i as int)),
            n <= i,
        decreases plans@.len() - i,
    {
        assert(plans@.take(i as int + 1).drop_last() =~= plans@.take(i as int));
        if plans[i].source != plans[i].target {
            n = n + 1;
        }
        i = i + 1;
    }
    assert(plans@.take(plans@.len() as int) =~= plans@);
    n
}

/// Counts of a batch of rename results.
#[derive(Debug, Clone, Copy, PartialEq, Eq, Structural)]
pub struct ResultSummary {
    /// Results that succeeded (unchanged ones included).
    pub succeeded: usize,
    /// Results that failed.
    pub failed: usize,
    /// Successful results whose source is their target.
    pub skipped: usize,
}

/// Number of results satisfying `f`.
pub open spec fn count_where(results: Seq<RenameResult>, f: spec_fn(RenameResult) -> bool) -> nat
    decreases results.len(),
{
    if results.len() == 0 {
        0
    } else {
        count_where(results.drop_last(), f) + if f(results.last()) { 1nat } else { 0nat }
    }
}

/// Summarizes rename results: how many succeeded, failed, and were left
/// unchanged.
pub fn summarize_results(results: &[RenameResult]) -> (r: ResultSummary)
    ensures
        r.succeeded == count_where(results@, |x: RenameResult| x.success),
        r.failed == count_where(results@, |x: RenameResult| !x.success),
        r.skipped == count_where(results@, |x: RenameResult| x.source@ == x.target@ && x.success),
{
    let mut s = ResultSummary { succeeded: 0, failed: 0, skipped: 0 };
    let mut i: usize = 0;
    assert(results@.take(0) =~= Seq::<RenameResult>::empty());
    while i < results.len()
        invariant
            i <= results@.len(),
            s.succeeded <= i,
            s.failed <= i,
            s.skipped <= i,
            s.succeeded == count_where(results@.take(i as int), |x: RenameResult| x.success),
            s.failed == count_where(results@.take(i as int), |x: RenameResult| !x.success),
            s.skipped == count_where(results@.take(i as int), |x: RenameResult| x.source@ == x.target@ && x.success),
        decreases results@.len() - i,
    {
        assert(results@.take(i as int + 1).drop_last() =~= results@.take(i as int));
        assert(results@.take(i as int + 1).last() == results@[i as int]);
        let r = &results[i];
        if r.success {
            s.succeeded = s.succeeded + 1;
        } else {
            s.failed = s.failed + 1;
        }
        if r.source == r.target && r.success {
            s.skipped = s.skipped + 1;
        }
        i = i + 1;
    }
    assert(results@.take(results@.len() as int) =~= results@);
    s
}


/// How a report line is shown.
#[derive(Debug, Clone, Copy, PartialEq, Eq, Structural)]
pub enum Emphasis {
    /// Something failed (red).
    Failure,
    /// Worth a look (cyan).
    Notice,
    /// All went well (green).
    Success,
}

/// The closing line of the results report: failures when there are some,
/// else the unchanged files when there are some, else the renamed count.
pub open spec fn results_line(succeeded: nat, failed: nat, skipped: nat) -> (Seq<char>, Emphasis) {
    if failed > 0 {
        ("Renamed "@ + decimal(succeeded) + " file(s), "@ + decimal(failed) + " failed."@, Emphasis::Failure)
    } else if skipped > 0 {
        ("Renamed "@ + decimal((succeeded - skipped) as nat) + " file(s), "@ + decimal(skipped) + " unchanged."@, Emphasis::Notice)
    } else {
        ("Renamed "@ + decimal(succeeded) + " file(s)."@, Emphasis::Success)
    }
}

/// The closing line of the results report and how to show it (see
/// `results_line`); empty results have no closing line.
pub fn results_summary_line(results: &[RenameResult]) -> (r: Option<(String, Emphasis)>)
    ensures
        results@.len() == 0 ==> r is None,
        results@.len() > 0 ==> (r matches Some((t, e)) && (t@, e) == results_line(
            count_where(results@, |x: RenameResult| x.success),
            count_where(results@, |x: RenameResult| !x.success),
            count_where(results@, |x: RenameResult| x.source@ == x.target@ && x.success),
        )),
{
    if results.len() == 0 {
        return None;
    }
    let s = summarize_results(results);
    proof {
        lemma_skipped_le_succeeded(results@);
    }
    if s.failed > 0 {
        let mut v = chars_of("Renamed ");
        push_all(&mut v, decimal_chars(s.succeeded).as_slice());
        push_all(&mut v, chars_of(" file(s), ").as_slice());
        push_all(&mut v, decimal_chars(s.failed).as_slice());
        push_all(&mut v, chars_of(" failed.").as_slice());
        Some((string_from_chars(v.as_slice()), Emphasis::Failure))
    } else if s.skipped > 0 {
        let mut v = chars_of("Renamed ");
        push_all(&mut v, decimal_chars(s.succeeded - s.skipped).as_slice());
        push_all(&mut v, chars_of(" file(s), ").as_slice());
        push_all(&mut v, decimal_chars(s.skipped).as_slice());
        push_all(&mut v, chars_of(" unchanged.").as_slice());
        Some((string_from_chars(v.as_slice()), Emphasis::Notice))
    } else {
        let mut v = chars_of("Renamed ");
        push_all(&mut v, decimal_chars(s.succeeded).as_slice());
        push_all(&mut v, chars_of(" file(s).").as_slice());
        Some((string_from_chars(v.as_slice()), Emphasis::Success))
    }
}

/// Unchanged successes are successes.
proof fn lemma_skipped_le_succeeded(results: Seq<RenameResult>)
    ensures
        count_where(results, |x: RenameResult| x.source@ == x.target@ && x.success)
            <= count_where(results, |x: RenameResult| x.success),
    decreases results.len(),
{
    if results.len() > 0 {
        lemma_skipped_le_succeeded(results.drop_last());
    }
}

/// The status column of a result in the results report: `ok (unchanged)`
/// when nothing was renamed, else `ok` or `FAILED`.
pub fn report_status(result: &RenameResult) -> (r: String)
    ensures
        r@ == if result.source@ == result.target@ {
            "ok (unchanged)"@
        } else if result.success {
            "ok"@
        } else {
            "FAILED"@
        },
{
    if same_text(result.source.as_str(), result.target.as_str()) {
        string_from_chars(chars_of("ok (unchanged)").as_slice())
    } else if result.success {
        string_from_chars(chars_of("ok").as_slice())
    } else {
        string_from_chars(chars_of("FAILED").as_slice())
    }
}

/// The closing line of the preview: how many plans would rename a file.
pub fn preview_line(plans: &[RenamePlan]) -> (r: String)
    ensures
        r@ == "Would rename "@ + decimal(changed_count(plans@)) + " file(s)."@,
{
    let mut v = chars_of("Would rename ");
    push_all(&mut v, decimal_chars(count_changed(plans)).as_slice());
    push_all(&mut v, chars_of(" file(s).").as_slice());
    string_from_chars(v.as_slice())
}

/// The name a report shows for a path: its file name, or nothing.
pub fn display_name(path: &str) -> (r: String)
    ensures
        r@ == match file_name_of(path@) {
            Some(n) => n,
            None => Seq::<char>::empty(),
        },
{
    match file_name(path) {
        Some(n) => n,
        None => String::new(),
    }
}

} // verus!
