//! Rename rules: each maps a file's stem (and context) to a new stem.

pub mod case_transform;
pub mod counter;
pub mod extension;
pub mod find_replace;
pub mod prefix_suffix;
pub mod regex_replace;
pub mod remove_text;

use vstd::prelude::*;
use crate::error::{NomforgeError, Result};
use crate::pattern::{regex_accepts, regex_replaced};
use crate::text::replaced;
use case_transform::{apply_case_transform, case_applied};
use counter::{apply_counter, counter_applied, counter_text};
use extension::{apply_extension, extension_problem, invalid_extension};
use find_replace::apply_find_replace;
use prefix_suffix::{apply_prefix, apply_suffix};
use regex_replace::apply_regex_replace;
use remove_text::apply_remove_text;

verus! {

/// Metadata about a file being renamed.
#[derive(Debug, Clone)]
pub struct FileMetadata {
    /// Size in bytes.
    pub size: u64,
    /// Last modification, in seconds since the Unix epoch, when known.
    pub modified: Option<u64>,
    /// Creation, in seconds since the Unix epoch, when known.
    pub created: Option<u64>,
}

/// Context passed to each rename rule during transformation.
#[derive(Debug, Clone)]
pub struct RenameContext {
    /// The file's full name (e.g. "photo_001.jpg")
    pub filename: String,
    /// Filename without extension (e.g. "photo_001")
    pub stem: String,
    /// Extension without dot (e.g. "jpg")
    pub extension: String,
    /// Parent directory path
    pub parent_dir: String,
    /// 0-based index of this file in the batch
    pub counter: usize,
    /// File metadata
    pub metadata: FileMetadata,
}

/// Case transformation mode.
#[derive(Debug, Clone, Copy, PartialEq, Eq, Structural)]
pub enum Case {
    Upper,
    Lower,
    Title,
}

/// Where to insert the counter in the filename.
#[derive(Debug, Clone, Copy, PartialEq, Eq, Structural)]
pub enum SeqPosition {
    Prefix,
    Suffix,
    ReplaceStem,
}

/// A single rename rule applied to a file.
#[derive(Debug, Clone)]
pub enum RenameRule {
    /// Plain text find & replace (no regex).
    FindReplace { find: String, replace: String },
    /// Prepend text to filename stem.
    Prefix(String),
    /// Append text to filename stem.
    Suffix(String),
    /// Delete all occurrences of a substring from the filename.
    RemoveText(String),
    /// Case transformation.
    CaseTransform(Case),
    /// Insert/replace with a sequential number.
    NumberSequence { start: usize, padding: usize, position: SeqPosition },
    /// Keep or change the file extension.
    ChangeExtension { new_ext: Option<String> },
    /// Regex-based find & replace.
    RegexReplace { pattern: String, replacement: String },
}

/// A rename rule with its texts as character sequences.
pub enum RuleModel {
    FindReplace { find: Seq<char>, replace: Seq<char> },
    Prefix(Seq<char>),
    Suffix(Seq<char>),
    RemoveText(Seq<char>),
    CaseTransform(Case),
    NumberSequence { start: usize, padding: usize, position: SeqPosition },
    ChangeExtension { new_ext: Option<Seq<char>> },
    RegexReplace { pattern: Seq<char>, replacement: Seq<char> },
}

impl View for RenameRule {
    type V = RuleModel;

    open spec fn view(&self) -> RuleModel {
        match *self {
            RenameRule::FindReplace { find, replace } => RuleModel::FindReplace { find: find@, replace: replace@ },
            RenameRule::Prefix(p) => RuleModel::Prefix(p@),
            RenameRule::Suffix(s) => RuleModel::Suffix(s@),
            RenameRule::RemoveText(t) => RuleModel::RemoveText(t@),
            RenameRule::CaseTransform(c) => RuleModel::CaseTransform(c),
            RenameRule::NumberSequence { start, padding, position } =>
                RuleModel::NumberSequence { start, padding, position },
            RenameRule::ChangeExtension { new_ext } => RuleModel::ChangeExtension {
                new_ext: match new_ext {
                    Some(e) => Some(e@),
                    None => None,
                },
            },
            RenameRule::RegexReplace { pattern, replacement } =>
                RuleModel::RegexReplace { pattern: pattern@, replacement: replacement@ },
        }
    }
}

/// The models of a sequence of rules.
pub open spec fn rule_models(rules: Seq<RenameRule>) -> Seq<RuleModel> {
    rules.map_values(|r: RenameRule| r@)
}

/// The rule can run on this context without overflowing the sequence number.
pub open spec fn rule_fits(rule: RenameRule, counter: nat) -> bool {
    match rule {
        RenameRule::NumberSequence { start, .. } => start + counter <= usize::MAX,
        _ => true,
    }
}

/// The rule is accepted: a changed extension is safe and a regex compiles.
pub open spec fn rule_valid(rule: RenameRule) -> bool {
    match rule {
        RenameRule::ChangeExtension { new_ext: Some(e) } => e@.len() == 0 || extension_problem(e@) is None,
        RenameRule::RegexReplace { pattern, .. } => regex_accepts(pattern@),
        _ => true,
    }
}

/// The error an invalid rule gives.
pub open spec fn rule_error(rule: RenameRule, e: NomforgeError) -> bool {
    match rule {
        RenameRule::ChangeExtension { new_ext: Some(x) } => match extension_problem(x@) {
            Some(why) => invalid_extension(e, x@, why),
            None => false,
        },
        RenameRule::RegexReplace { pattern, .. } => e matches NomforgeError::InvalidRegex { pattern: p, .. }
            && p@ == pattern@,
        _ => false,
    }
}

/// The new stem a valid rule gives for a stem, counter and extension.
pub open spec fn rule_stem(rule: RenameRule, stem: Seq<char>, counter: nat) -> Seq<char> {
    match rule {
        RenameRule::FindReplace { find, replace } => replaced(stem, find@, replace@),
        RenameRule::Prefix(p) => p@ + stem,
        RenameRule::Suffix(s) => stem + s@,
        RenameRule::RemoveText(t) => replaced(stem, t@, Seq::<char>::empty()),
        RenameRule::CaseTransform(c) => case_applied(stem, c),
        RenameRule::NumberSequence { start, padding, position } =>
            counter_applied(stem, counter_text(start as nat, counter, padding as nat), position),
        RenameRule::ChangeExtension { .. } => stem,
        RenameRule::RegexReplace { pattern, replacement } => regex_replaced(pattern@, stem, replacement@),
    }
}

impl RenameRule {
    /// Applies this rule to the given context, returning the transformed stem.
    ///
    /// Rules operate on the stem (filename without extension); the extension
    /// is kept separately and reattached by the engine. `ChangeExtension`
    /// only checks its new extension here and returns the stem unchanged.
    pub fn apply(&self, ctx: &RenameContext) -> (r: Result<String>)
        requires
            rule_fits(*self, ctx.counter as nat),
        ensures
            r is Ok <==> rule_valid(*self),
            r matches Ok(s) ==> s@ == rule_stem(*self, ctx.stem@, ctx.counter as nat),
            r matches Err(e) ==> rule_error(*self, e),
    {
        match self {
            RenameRule::FindReplace { find, replace } => apply_find_replace(find.as_str(), replace.as_str(), ctx),
            RenameRule::Prefix(p) => apply_prefix(p.as_str(), ctx),
            RenameRule::Suffix(s) => apply_suffix(s.as_str(), ctx),
            RenameRule::RemoveText(text) => apply_remove_text(text.as_str(), ctx),
            RenameRule::CaseTransform(case) => apply_case_transform(ctx.stem.as_str(), *case),
            RenameRule::NumberSequence { start, padding, position } => apply_counter(*start, *padding, *position, ctx),
            RenameRule::ChangeExtension { new_ext } => {
                apply_extension(ctx.extension.as_str(), new_ext)?;
                Ok(ctx.stem.clone())
            },
            RenameRule::RegexReplace { pattern, replacement } =>
                apply_regex_replace(pattern.as_str(), replacement.as_str(), ctx),
        }
    }
}

} // verus!
