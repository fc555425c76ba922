use std::cell::RefCell;
use std::collections::{BTreeMap, BTreeSet};

use nomforge::cli::{case_for_word, position_for_word, require_dir};
use nomforge::conflict::{conflicts_given, detect_conflicts, ConflictReason};
use nomforge::display::{candidate_path, disambiguate, truncate_stem};
use nomforge::engine::{RenameEngine, RenamePlan, RenameResult};
use nomforge::error::NomforgeError;
use nomforge::host::{Host, Session, WalkEntry};
use nomforge::path::{file_name, parent};
use nomforge::unicode::trim_chars;
use nomforge::rules::{Case, FileMetadata, RenameRule, SeqPosition};
use nomforge::scanner::{scan_files, select_entries, ScanOptions};
use nomforge::undo::{
    default_undo_log_path, list_batches, loaded_log, log_renames, record_results, revert_last, stored_log,
    successful_entries,
    take_revert_moves, timestamp_from, undo_count, undo_entries, undo_log_path_for, undo_log_path_under, UndoBatch, UndoEntry, UndoLog,
};

/// A file system kept in memory.
struct MemHost {
    files: RefCell<BTreeMap<String, String>>,
    dirs: RefCell<BTreeSet<String>>,
    logs: RefCell<BTreeMap<String, UndoLog>>,
    home: Option<String>,
    refuse_renames: bool,
}

impl MemHost {
    fn new(dir: &str, names: &[&str]) -> MemHost {
        let host = MemHost {
            files: RefCell::new(BTreeMap::new()),
            dirs: RefCell::new(BTreeSet::new()),
            logs: RefCell::new(BTreeMap::new()),
            home: Some("/home/user".to_string()),
            refuse_renames: false,
        };
        host.dirs.borrow_mut().insert(dir.to_string());
        for n in names {
            host.add(&format!("{}/{}", dir, n));
        }
        host
    }

    fn add(&self, path: &str) {
        self.files.borrow_mut().insert(path.to_string(), format!("content of {}", path));
    }

    fn has(&self, path: &str) -> bool {
        self.files.borrow().contains_key(path)
    }
}

impl Host for MemHost {
    fn path_exists(&self, path: &str) -> bool {
        self.files.borrow().contains_key(path) || self.dirs.borrow().contains(path) || self.logs.borrow().contains_key(path)
    }

    fn file_metadata(&self, path: &str) -> Option<FileMetadata> {
        self.files.borrow().get(path).map(|c| FileMetadata { size: c.len() as u64, modified: None, created: None })
    }

    fn rename_file(&self, from: &str, to: &str) -> Result<(), String> {
        if self.refuse_renames {
            return Err("permission denied".to_string());
        }
        let mut files = self.files.borrow_mut();
        match files.remove(from) {
            Some(c) => {
                files.insert(to.to_string(), c);
                Ok(())
            }
            None => Err(format!("no such file: {}", from)),
        }
    }

    fn walk_dir(&self, dir: &str, recursive: bool) -> Vec<WalkEntry> {
        if !self.dirs.borrow().contains(dir) {
            return Vec::new();
        }
        let mut out = vec![WalkEntry {
            path: dir.to_string(),
            file_name: dir.rsplit('/').next().unwrap_or("").to_string(),
            is_file: false,
        }];
        let prefix = format!("{}/", dir);
        for p in self.files.borrow().keys() {
            if let Some(rest) = p.strip_prefix(&prefix) {
                if recursive || !rest.contains('/') {
                    out.push(WalkEntry {
                        path: p.clone(),
                        file_name: p.rsplit('/').next().unwrap().to_string(),
                        is_file: true,
                    });
                }
            }
        }
        out
    }

    fn home_dir(&self) -> Option<String> {
        self.home.clone()
    }

    fn read_undo_log(&self, path: &str) -> Result<UndoLog, String> {
        self.logs.borrow().get(path).cloned().ok_or_else(|| "unreadable".to_string())
    }

    fn write_undo_log(&self, path: &str, log: &UndoLog) -> Result<(), String> {
        self.logs.borrow_mut().insert(path.to_string(), log.clone());
        Ok(())
    }
}

fn plan(source: &str, target: &str) -> RenamePlan {
    RenamePlan { source: source.to_string(), target: target.to_string() }
}

fn nowhere() -> MemHost {
    MemHost::new("/nowhere", &[])
}

// --- Conflicts ---

#[test]
fn conflict_same_target() {
    let plans = vec![plan("/tmp/a.txt", "/tmp/result.txt"), plan("/tmp/b.txt", "/tmp/result.txt")];
    let conflicts = detect_conflicts(&plans, &mut Session::new(&nowhere()));
    assert_eq!(conflicts.len(), 1);
    assert!(matches!(conflicts[0].reason, ConflictReason::SameTarget(_)));
}

#[test]
fn conflict_target_exists() {
    let host = MemHost::new("/tmp/nomforge_test_conflict_exists", &["existing.txt"]);
    let plans = vec![plan("/tmp/nomforge_test_conflict_exists/other.txt", "/tmp/nomforge_test_conflict_exists/existing.txt")];
    let conflicts = detect_conflicts(&plans, &mut Session::new(&host));
    assert_eq!(conflicts.len(), 1);
    assert!(matches!(conflicts[0].reason, ConflictReason::TargetExists(_)));
}

#[test]
fn no_conflict_when_different_targets() {
    let plans = vec![plan("/tmp/a.txt", "/tmp/a_renamed.txt"), plan("/tmp/b.txt", "/tmp/b_renamed.txt")];
    assert!(detect_conflicts(&plans, &mut Session::new(&nowhere())).is_empty());
}

#[test]
fn no_conflict_when_source_equals_target() {
    let host = MemHost::new("/tmp", &["same.txt"]);
    let plans = vec![plan("/tmp/same.txt", "/tmp/same.txt")];
    assert!(detect_conflicts(&plans, &mut Session::new(&host)).is_empty());
}

#[test]
fn conflict_display_same_target() {
    let reason = ConflictReason::SameTarget("/tmp/result.txt".to_string());
    let msg = reason.describe();
    assert!(msg.contains("duplicate target"));
    assert!(msg.contains("result.txt"));
}

#[test]
fn conflict_display_target_exists() {
    let reason = ConflictReason::TargetExists("/tmp/existing.txt".to_string());
    let msg = reason.describe();
    assert!(msg.contains("already exists"));
    assert!(msg.contains("existing.txt"));
}

#[test]
fn multiple_same_target_conflicts() {
    let plans = vec![
        plan("/tmp/a.txt", "/tmp/result.txt"),
        plan("/tmp/b.txt", "/tmp/result.txt"),
        plan("/tmp/c.txt", "/tmp/result.txt"),
    ];
    let conflicts = detect_conflicts(&plans, &mut Session::new(&nowhere()));
    assert_eq!(conflicts.len(), 2);
    for c in &conflicts {
        assert!(matches!(c.reason, ConflictReason::SameTarget(_)));
    }
}

#[test]
fn no_conflicts_empty_plans() {
    assert!(detect_conflicts(&[], &mut Session::new(&nowhere())).is_empty());
}

#[test]
fn no_conflicts_single_plan() {
    let plans = vec![plan("/tmp/a.txt", "/tmp/b.txt")];
    assert!(detect_conflicts(&plans, &mut Session::new(&nowhere())).is_empty());
}

#[test]
fn conflict_empty_plans() {
    assert!(detect_conflicts(&[], &mut Session::new(&nowhere())).is_empty());
}

#[test]
fn conflict_triple_same_target() {
    let plans: Vec<_> = (0..3).map(|i| plan(&format!("/tmp/file{i}.txt"), "/tmp/result.txt")).collect();
    let conflicts = detect_conflicts(&plans, &mut Session::new(&nowhere()));
    assert_eq!(conflicts.len(), 2);
    for c in &conflicts {
        assert!(matches!(c.reason, ConflictReason::SameTarget(_)));
    }
}

#[test]
fn duplicate_conflicts_pair_with_first_plan() {
    // Law: each later plan is paired with the first plan that has its target.
    let plans: Vec<_> = (0..3).map(|i| plan(&format!("/tmp/file{i}.txt"), "/tmp/result.txt")).collect();
    let conflicts = conflicts_given(&plans, &[false, false, false]);
    assert_eq!((conflicts[0].plan_a, conflicts[0].plan_b), (0, 1));
    assert_eq!((conflicts[1].plan_a, conflicts[1].plan_b), (0, 2));
}

#[test]
fn taken_target_reported_before_duplicate() {
    let plans = vec![plan("/d/a", "/d/x"), plan("/d/b", "/d/x")];
    let conflicts = conflicts_given(&plans, &[false, true]);
    assert_eq!(conflicts.len(), 2);
    assert_eq!((conflicts[0].plan_a, conflicts[0].plan_b), (1, 1));
    assert!(matches!(conflicts[0].reason, ConflictReason::TargetExists(_)));
    assert_eq!((conflicts[1].plan_a, conflicts[1].plan_b), (0, 1));
    assert!(matches!(conflicts[1].reason, ConflictReason::SameTarget(_)));
}

// --- Truncation and disambiguation ---

#[test]
fn truncate_stem_short_name() {
    assert_eq!(truncate_stem("file", "txt"), "file");
    assert_eq!(truncate_stem("a", "md"), "a");
}

#[test]
fn truncate_stem_at_limit() {
    let stem = "a".repeat(251);
    assert_eq!(truncate_stem(&stem, "txt").len(), 251);
}

#[test]
fn truncate_stem_exceeds_limit() {
    let stem = "a".repeat(300);
    let result = truncate_stem(&stem, "txt");
    assert!(result.len() < 300);
    assert!(result.ends_with(".."));
}

#[test]
fn truncate_stem_no_extension() {
    let stem = "a".repeat(300);
    let result = truncate_stem(&stem, "");
    assert!(result.len() < 300);
    assert!(result.ends_with(".."));
}

#[test]
fn truncate_stem_long_extension() {
    let stem = "a".repeat(300);
    let ext = "x".repeat(50);
    let result = truncate_stem(&stem, &ext);
    assert!(result.len() < 300);
    assert!(result.ends_with(".."));
}

#[test]
fn truncate_stem_multibyte_utf8() {
    let stem = "中".repeat(100);
    let result = truncate_stem(&stem, "txt");
    assert!(result.ends_with(".."));
    let _ = result.as_str();
    let prefix = &result[..result.len() - 2];
    assert!(std::str::from_utf8(prefix.as_bytes()).is_ok());
}

#[test]
fn truncate_stem_emoji() {
    let stem = "😀".repeat(80);
    let result = truncate_stem(&stem, "txt");
    assert!(result.ends_with(".."));
    let prefix = &result[..result.len() - 2];
    assert!(std::str::from_utf8(prefix.as_bytes()).is_ok());
}

#[test]
fn truncated_ascii_name_is_exactly_at_limit() {
    // Law: an ASCII stem is cut so that stem, `..`, dot and extension make 255 bytes.
    let result = truncate_stem(&"a".repeat(300), "txt");
    assert_eq!(result.len(), 249 + 2);
    assert_eq!(format!("{}.txt", result).len(), 255);
    let no_ext = truncate_stem(&"a".repeat(300), "");
    assert_eq!(no_ext.len(), 255);
}

#[test]
fn truncated_multibyte_name_fits() {
    // Only characters that end within the room are kept.
    let result = truncate_stem(&"é".repeat(200), "txt");
    assert_eq!(result.chars().count(), 124 + 2);
    assert_eq!(format!("{}.txt", result).len(), 254);
    let emoji = truncate_stem(&"😀".repeat(80), "txt");
    assert_eq!(emoji, format!("{}..", "😀".repeat(62)));
    assert!(format!("{}.txt", emoji).len() <= 255);
}

#[test]
fn name_that_fits_is_kept() {
    let stem = "a".repeat(251);
    assert_eq!(truncate_stem(&stem, "txt"), stem);
    let whole = "a".repeat(255);
    assert_eq!(truncate_stem(&whole, ""), whole);
    let over = "a".repeat(256);
    assert_eq!(truncate_stem(&over, ""), format!("{}..", "a".repeat(253)));
}

#[test]
fn disambiguate_no_conflict() {
    let host = nowhere();
    let target = "/tmp/nomforge_test_disambiguate_no_conflict/file.txt";
    assert_eq!(disambiguate(target, &mut Session::new(&host)), target);
}

#[test]
fn disambiguate_with_conflicts() {
    let host = MemHost::new("/tmp/d", &["file.txt", "file_1.txt", "file_2.txt", "file"]);
    assert_eq!(disambiguate("/tmp/d/file.txt", &mut Session::new(&host)), "/tmp/d/file_3.txt");
    assert_eq!(disambiguate("/tmp/d/file", &mut Session::new(&host)), "/tmp/d/file_1");
}

#[test]
fn candidate_paths() {
    assert_eq!(candidate_path("/tmp/d/photo.jpg", 12), "/tmp/d/photo_12.jpg");
    assert_eq!(candidate_path("notes", 1), "notes_1");
}

// --- Planning and applying ---

#[test]
fn plan_no_files_returns_error() {
    let engine = RenameEngine::new(vec![]);
    let result = engine.plan(&[], &mut Session::new(&nowhere()));
    assert!(result.is_err());
}

#[test]
fn error_no_files_returns_error() {
    let engine = RenameEngine::new(vec![RenameRule::Prefix("pre_".into())]);
    let result = engine.plan(&[], &mut Session::new(&nowhere()));
    assert!(matches!(result, Err(NomforgeError::NoFilesFound)));
}

#[test]
fn plan_chains_rules_in_order() {
    let host = MemHost::new("/p", &["file1.txt", "file2.txt", "file3.txt"]);
    let files: Vec<String> = (1..=3).map(|i| format!("/p/file{i}.txt")).collect();
    let engine = RenameEngine::new(vec![
        RenameRule::NumberSequence { start: 1, padding: 3, position: SeqPosition::Prefix },
        RenameRule::CaseTransform(Case::Upper),
        RenameRule::ChangeExtension { new_ext: Some("md".into()) },
    ]);
    let plans = engine.plan(&files, &mut Session::new(&host)).unwrap();
    assert_eq!(plans[0].target, "/p/001FILE1.md");
    assert_eq!(plans[1].target, "/p/002FILE2.md");
    assert_eq!(plans[2].target, "/p/003FILE3.md");
    assert_eq!(plans[2].source, "/p/file3.txt");
}

#[test]
fn plan_keeps_taken_targets() {
    // A target that already exists is kept; conflict detection reports it.
    let host = MemHost::new("/p", &["a.txt", "a"]);
    let engine = RenameEngine::new(vec![RenameRule::ChangeExtension { new_ext: Some(String::new()) }]);
    let plans = engine.plan(&["/p/a.txt".to_string()], &mut Session::new(&host)).unwrap();
    assert_eq!(plans[0].target, "/p/a");
    let conflicts = detect_conflicts(&plans, &mut Session::new(&host));
    assert!(matches!(conflicts[0].reason, ConflictReason::TargetExists(_)));
}

#[test]
fn plan_keeps_unchanged_names() {
    // A file whose name does not change is not given another name.
    let host = MemHost::new("/p", &["a.txt"]);
    let engine = RenameEngine::new(vec![]);
    let plans = engine.plan(&["/p/a.txt".to_string()], &mut Session::new(&host)).unwrap();
    assert_eq!(plans[0].target, "/p/a.txt");
}

#[test]
fn plan_truncates_long_names() {
    let long = "b".repeat(260);
    let path = format!("/p/{long}.txt");
    let host = MemHost::new("/p", &[]);
    host.add(&path);
    let engine = RenameEngine::new(vec![RenameRule::Suffix("_x".into())]);
    let plans = engine.plan(&[path], &mut Session::new(&host)).unwrap();
    let name = plans[0].target.rsplit('/').next().unwrap().to_string();
    assert_eq!(name.len(), 255);
    assert!(name.ends_with("...txt"));
}

#[test]
fn plan_reports_first_invalid_rule() {
    let host = MemHost::new("/p", &["a.txt"]);
    let engine = RenameEngine::new(vec![
        RenameRule::RegexReplace { pattern: "(".into(), replacement: "x".into() },
        RenameRule::ChangeExtension { new_ext: Some("a/b".into()) },
    ]);
    match engine.plan(&["/p/a.txt".to_string()], &mut Session::new(&host)) {
        Err(NomforgeError::InvalidRegex { pattern, .. }) => assert_eq!(pattern, "("),
        other => panic!("unexpected: {:?}", other),
    }
}

#[test]
fn plan_rejects_path_without_file_name() {
    let host = nowhere();
    let engine = RenameEngine::new(vec![RenameRule::Prefix("x".into())]);
    match engine.plan(&["/".to_string()], &mut Session::new(&host)) {
        Err(NomforgeError::FileNotFound(p)) => assert_eq!(p, "/"),
        other => panic!("unexpected: {:?}", other),
    }
}

#[test]
fn apply_renames_and_reports() {
    let host = MemHost::new("/p", &["a.txt", "b.txt"]);
    let plans = vec![plan("/p/a.txt", "/p/x.txt"), plan("/p/b.txt", "/p/b.txt"), plan("/p/gone.txt", "/p/y.txt")];
    let engine = RenameEngine::new(vec![]);
    let results = engine.apply(&plans, &mut Session::new(&host)).unwrap();
    assert!(results[0].success && results[0].error.is_none());
    assert!(results[1].success);
    assert!(!results[2].success);
    assert_eq!(results[2].error.as_deref(), Some("no such file: /p/gone.txt"));
    assert!(host.has("/p/x.txt") && !host.has("/p/a.txt"));
}

// --- Scanning ---

#[test]
fn scan_nonexistent_directory() {
    let host = nowhere();
    let files = scan_files("/tmp/nomforge_test_scan_nonexistent_12345", &Default::default(), &mut Session::new(&host)).unwrap();
    assert!(files.is_empty());
}

#[test]
fn scan_filters_and_sorts() {
    let host = MemHost::new("/s", &["b.TXT", "a.txt", ".hidden.txt", "c.jpg", "sub/d.txt", "IMG_12.png", "backup_IMG_3.png"]);
    let files = scan_files("/s", &ScanOptions::default(), &mut Session::new(&host)).unwrap();
    assert_eq!(files, vec!["/s/IMG_12.png", "/s/a.txt", "/s/b.TXT", "/s/backup_IMG_3.png", "/s/c.jpg"]);
    let opts = ScanOptions { extensions: Some(vec!["txt".into()]), recursive: true, include_hidden: true, ..Default::default() };
    let files = scan_files("/s", &opts, &mut Session::new(&host)).unwrap();
    assert_eq!(files, vec!["/s/.hidden.txt", "/s/a.txt", "/s/b.TXT", "/s/sub/d.txt"]);
    let opts = ScanOptions {
        include_pattern: Some(r"IMG_\d+".into()),
        exclude_pattern: Some("backup".into()),
        ..Default::default()
    };
    assert_eq!(scan_files("/s", &opts, &mut Session::new(&host)).unwrap(), vec!["/s/IMG_12.png"]);
}

#[test]
fn scan_rejects_bad_pattern() {
    let host = nowhere();
    let opts = ScanOptions { exclude_pattern: Some("(".into()), ..Default::default() };
    match scan_files("/nowhere", &opts, &mut Session::new(&host)) {
        Err(NomforgeError::InvalidRegex { pattern, .. }) => assert_eq!(pattern, "("),
        other => panic!("unexpected: {:?}", other),
    }
}

#[test]
fn select_entries_skips_directories() {
    let entries = vec![
        WalkEntry { path: "/s/dir".into(), file_name: "dir".into(), is_file: false },
        WalkEntry { path: "/s/z".into(), file_name: "z".into(), is_file: true },
        WalkEntry { path: "/s/y".into(), file_name: "y".into(), is_file: true },
    ];
    assert_eq!(select_entries(&entries, &ScanOptions::default()).unwrap(), vec!["/s/y", "/s/z"]);
}

// --- Undo ---

fn result(source: &str, target: &str, success: bool) -> RenameResult {
    RenameResult {
        source: source.to_string(),
        target: target.to_string(),
        success,
        error: if success { None } else { Some("failed".to_string()) },
    }
}

#[test]
fn undo_log_location() {
    assert_eq!(undo_log_path_under("/home/me"), "/home/me/.local/share/nomforge/undo_log.json");
    assert_eq!(default_undo_log_path(&mut Session::new(&nowhere())), "/home/user/.local/share/nomforge/undo_log.json");
    let homeless = MemHost { home: None, ..nowhere() };
    assert_eq!(default_undo_log_path(&mut Session::new(&homeless)), "./.local/share/nomforge/undo_log.json");
}

#[test]
fn log_then_revert_restores_files() {
    // Law: undoing a logged batch gives back the files as they were.
    let host = MemHost::new("/u", &["a.txt", "b.txt", "c.txt"]);
    let before = host.files.borrow().clone();
    let plans = vec![plan("/u/a.txt", "/u/x.txt"), plan("/u/b.txt", "/u/y.txt"), plan("/u/c.txt", "/u/c.txt")];
    let results = RenameEngine::new(vec![]).apply(&plans, &mut Session::new(&host)).unwrap();
    log_renames("/log.json", &results, &mut Session::new(&host)).unwrap();
    assert_eq!(undo_count("/log.json", &mut Session::new(&host)).unwrap(), 1);
    assert_eq!(revert_last("/log.json", &mut Session::new(&host)).unwrap(), 3);
    assert_eq!(*host.files.borrow(), before);
    assert_eq!(undo_count("/log.json", &mut Session::new(&host)).unwrap(), 0);
}

#[test]
fn revert_without_history_fails() {
    let host = nowhere();
    match revert_last("/log.json", &mut Session::new(&host)) {
        Err(NomforgeError::UndoLog(m)) => assert_eq!(m, "No undo history found"),
        other => panic!("unexpected: {:?}", other),
    }
}

#[test]
fn log_skips_failed_results_and_empty_batches() {
    let host = nowhere();
    log_renames("/log.json", &[result("/a", "/b", false)], &mut Session::new(&host)).unwrap();
    assert!(!host.path_exists("/log.json"));
    log_renames("/log.json", &[result("/a", "/b", true), result("/c", "/d", false)], &mut Session::new(&host)).unwrap();
    let batches = list_batches("/log.json", 10, &mut Session::new(&host)).unwrap();
    assert_eq!(batches.len(), 1);
    assert_eq!(batches[0].operations.len(), 1);
    assert_eq!(batches[0].operations[0].target, "/b");
}

#[test]
fn recent_batches_most_recent_first() {
    let mut log = UndoLog::new();
    for t in 0..3 {
        log.record(UndoBatch { timestamp: t, operations: vec![] });
    }
    let recent = log.recent(2);
    assert_eq!(recent.len(), 2);
    assert_eq!(recent[0].timestamp, 2);
    assert_eq!(recent[1].timestamp, 1);
    assert_eq!(log.recent(10).len(), 3);
}

#[test]
fn record_then_take_last_round_trip() {
    let mut log = UndoLog::new();
    log.record(UndoBatch { timestamp: 1, operations: vec![] });
    let batch = UndoBatch { timestamp: 2, operations: vec![UndoEntry { source: "/a".into(), target: "/b".into() }] };
    log.record(batch.clone());
    let taken = log.take_last().unwrap();
    assert_eq!(taken.timestamp, 2);
    assert_eq!(taken.operations[0].source, "/a");
    assert_eq!(log.batches.len(), 1);
    assert_eq!(log.batches[0].timestamp, 1);
    assert!(UndoLog::new().take_last().is_none());
}

#[test]
fn undo_entries_reverse_the_batch() {
    let batch = UndoBatch {
        timestamp: 0,
        operations: vec![
            UndoEntry { source: "/a".into(), target: "/b".into() },
            UndoEntry { source: "/c".into(), target: "/d".into() },
        ],
    };
    let back = undo_entries(&batch);
    assert_eq!((back[0].source.as_str(), back[0].target.as_str()), ("/d", "/c"));
    assert_eq!((back[1].source.as_str(), back[1].target.as_str()), ("/b", "/a"));
    let logged = successful_entries(&[result("/a", "/b", true), result("/x", "/y", false)]);
    assert_eq!(logged.len(), 1);
}

#[test]
fn loaded_log_cases() {
    assert!(loaded_log(None).unwrap().batches.is_empty());
    let mut log = UndoLog::new();
    log.record(UndoBatch { timestamp: 5, operations: vec![] });
    assert_eq!(loaded_log(Some(Ok(log))).unwrap().batches[0].timestamp, 5);
    match loaded_log(Some(Err("bad json".into()))) {
        Err(e) => assert_eq!(e.message(), "Undo log error: bad json"),
        Ok(_) => panic!("expected an error"),
    }
}

#[test]
fn take_revert_moves_cases() {
    let mut log = UndoLog::new();
    match take_revert_moves(&mut log) {
        Err(NomforgeError::UndoLog(m)) => assert_eq!(m, "No undo history found"),
        other => panic!("unexpected: {:?}", other),
    }
    log.record(UndoBatch { timestamp: 1, operations: vec![UndoEntry { source: "/a".into(), target: "/b".into() }] });
    log.record(UndoBatch { timestamp: 2, operations: vec![UndoEntry { source: "/c".into(), target: "/d".into() }] });
    let moves = take_revert_moves(&mut log).unwrap();
    assert_eq!((moves[0].source.as_str(), moves[0].target.as_str()), ("/d", "/c"));
    assert_eq!(log.batches.len(), 1);
    assert_eq!(log.batches[0].timestamp, 1);
}

#[test]
fn stored_log_cases() {
    assert!(stored_log(Ok(())).is_ok());
    match stored_log(Err("disk full".into())) {
        Err(NomforgeError::UndoLog(m)) => assert_eq!(m, "disk full"),
        other => panic!("unexpected: {:?}", other),
    }
}

#[test]
fn record_results_appends_successes() {
    let mut log = UndoLog::new();
    log.record(UndoBatch { timestamp: 1, operations: vec![] });
    record_results(&mut log, &[result("/a", "/b", true), result("/c", "/d", false), result("/e", "/f", true)], 9);
    assert_eq!(log.batches.len(), 2);
    assert_eq!(log.batches[0].timestamp, 1);
    let last = &log.batches[1];
    assert_eq!(last.timestamp, 9);
    assert_eq!(last.operations.len(), 2);
    assert_eq!((last.operations[1].source.as_str(), last.operations[1].target.as_str()), ("/e", "/f"));
}

#[test]
fn path_parts_skip_dot_components() {
    assert_eq!(file_name("a/b/."), Some("b".to_string()));
    assert_eq!(parent("a/b/."), Some("a".to_string()));
    assert_eq!(file_name("a/./b"), Some("b".to_string()));
    assert_eq!(parent("a/./b"), Some("a".to_string()));
    assert_eq!(parent("./a"), Some(".".to_string()));
    assert_eq!(file_name("/."), None);
    assert_eq!(parent("/."), None);
    assert_eq!(file_name("a/.."), None);
    assert_eq!(parent("/x/y//"), Some("/x".to_string()));
}

#[test]
fn undo_log_path_for_home() {
    assert_eq!(undo_log_path_for(Some("/h".to_string())), "/h/.local/share/nomforge/undo_log.json");
    assert_eq!(undo_log_path_for(None), "./.local/share/nomforge/undo_log.json");
}

#[test]
fn trim_drops_unicode_white_space() {
    let text: Vec<char> = "\u{3000} a b\u{2003}\n\u{85}".chars().collect();
    assert_eq!(trim_chars(&text), vec!['a', ' ', 'b']);
    let kept: Vec<char> = "\u{200b}x".chars().collect();
    assert_eq!(trim_chars(&kept), kept);
}

#[test]
fn words_name_cases_and_positions() {
    assert_eq!(case_for_word("upper"), Some(Case::Upper));
    assert_eq!(case_for_word("lower"), Some(Case::Lower));
    assert_eq!(case_for_word("title"), Some(Case::Title));
    assert_eq!(case_for_word("Upper"), None);
    assert_eq!(position_for_word("prefix"), Some(SeqPosition::Prefix));
    assert_eq!(position_for_word("suffix"), Some(SeqPosition::Suffix));
    assert_eq!(position_for_word("replace"), Some(SeqPosition::ReplaceStem));
    assert_eq!(position_for_word("middle"), None);
}

#[test]
fn rename_needs_an_existing_directory() {
    let host = MemHost::new("/w", &["a.txt"]);
    assert!(require_dir("/w/a.txt", &mut Session::new(&host)).is_ok());
    match require_dir("/tmp/nomforge_nonexistent_12345678", &mut Session::new(&host)) {
        Err(e) => assert_eq!(e.message(), "File not found: /tmp/nomforge_nonexistent_12345678"),
        Ok(()) => panic!("a missing directory is refused"),
    }
}

#[test]
fn timestamps_in_nanoseconds() {
    assert_eq!(timestamp_from(true, 1, 5), 1_000_000_005);
    assert_eq!(timestamp_from(true, 1_700_000_000, 0), 1_700_000_000_000_000_000);
    assert_eq!(timestamp_from(false, 1, 5), -1_000_000_005);
    assert_eq!(timestamp_from(false, 2, 0), -2_000_000_000);
    assert_eq!(timestamp_from(true, 0, 0), 0);
    assert_eq!(timestamp_from(true, 9_300_000_000, 0), i64::MAX);
    assert_eq!(timestamp_from(false, 9_300_000_000, 0), i64::MIN);
    assert_eq!(timestamp_from(true, u64::MAX, 999_999_999), i64::MAX);
}
