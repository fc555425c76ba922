use std::cell::RefCell;
use std::collections::BTreeMap;

use nomforge::command::{counters_fit, rename_command, undo_command, RenameStop};
use nomforge::conflict::{detect_conflicts, ConflictReason};
use nomforge::engine::{RenameEngine, RenamePlan, RenameResult};
use nomforge::host::{Host, Session, WalkEntry};
use nomforge::rules::{Case, FileMetadata, RenameRule, SeqPosition};
use nomforge::scanner::{scan_files, ScanOptions};
use nomforge::undo::{default_undo_log_path, log_renames, revert_last, undo_count, UndoLog};

const DIR: &str = "/tmp/nomforge_it";

/// A directory tree kept in memory, under `DIR`.
struct MemFs {
    files: RefCell<BTreeMap<String, String>>,
    logs: RefCell<BTreeMap<String, UndoLog>>,
}

fn path(name: &str) -> String {
    format!("{DIR}/{name}")
}

fn create_test_dir(files: &[(&str, &str)]) -> MemFs {
    let fs = MemFs { files: RefCell::new(BTreeMap::new()), logs: RefCell::new(BTreeMap::new()) };
    for (name, content) in files {
        fs.write(name, content);
    }
    fs
}

impl MemFs {
    fn write(&self, name: &str, content: &str) {
        self.files.borrow_mut().insert(path(name), content.to_string());
    }

    fn remove(&self, name: &str) {
        self.files.borrow_mut().remove(&path(name));
    }

    fn is_dir(&self, p: &str) -> bool {
        p == DIR || self.files.borrow().keys().any(|f| f.starts_with(&format!("{p}/")))
    }

    /// Sorted names of the files directly in `DIR`.
    fn file_names(&self) -> Vec<String> {
        let prefix = format!("{DIR}/");
        self.files
            .borrow()
            .keys()
            .filter_map(|f| f.strip_prefix(&prefix))
            .filter(|rest| !rest.contains('/'))
            .map(|rest| rest.to_string())
            .collect()
    }

    /// Sorted paths, relative to `DIR`, of all files under it.
    fn file_names_recursive(&self) -> Vec<String> {
        let prefix = format!("{DIR}/");
        self.files.borrow().keys().filter_map(|f| f.strip_prefix(&prefix)).map(|r| r.to_string()).collect()
    }

    fn read_content(&self, name: &str) -> String {
        self.files.borrow()[&path(name)].clone()
    }
}

impl Host for MemFs {
    fn path_exists(&self, p: &str) -> bool {
        self.files.borrow().contains_key(p) || self.is_dir(p) || self.logs.borrow().contains_key(p)
    }

    fn file_metadata(&self, p: &str) -> Option<FileMetadata> {
        self.files.borrow().get(p).map(|c| FileMetadata { size: c.len() as u64, modified: None, created: None })
    }

    fn rename_file(&self, from: &str, to: &str) -> Result<(), String> {
        let mut files = self.files.borrow_mut();
        match files.remove(from) {
            Some(c) => {
                files.insert(to.to_string(), c);
                Ok(())
            }
            None => Err("No such file or directory (os error 2)".to_string()),
        }
    }

    fn walk_dir(&self, dir: &str, recursive: bool) -> Vec<WalkEntry> {
        if !self.is_dir(dir) {
            return Vec::new();
        }
        let prefix = format!("{dir}/");
        let mut out = Vec::new();
        for f in self.files.borrow().keys() {
            if let Some(rest) = f.strip_prefix(&prefix) {
                if recursive || !rest.contains('/') {
                    out.push(WalkEntry {
                        path: f.clone(),
                        file_name: f.rsplit('/').next().unwrap().to_string(),
                        is_file: true,
                    });
                }
            }
        }
        out
    }

    fn home_dir(&self) -> Option<String> {
        Some("/home/tester".to_string())
    }

    fn read_undo_log(&self, p: &str) -> Result<UndoLog, String> {
        self.logs.borrow().get(p).cloned().ok_or_else(|| "unreadable".to_string())
    }

    fn write_undo_log(&self, p: &str, log: &UndoLog) -> Result<(), String> {
        self.logs.borrow_mut().insert(p.to_string(), log.clone());
        Ok(())
    }
}

fn scan(fs: &MemFs) -> Vec<String> {
    scan_files(DIR, &ScanOptions::default(), &mut Session::new(fs)).unwrap()
}

fn run(fs: &MemFs, rules: Vec<RenameRule>) -> Vec<RenameResult> {
    let files = scan(fs);
    let engine = RenameEngine::new(rules);
    let plans = engine.plan(&files, &mut Session::new(fs)).unwrap();
    engine.apply(&plans, &mut Session::new(fs)).unwrap()
}

fn counter(start: usize, padding: usize, position: SeqPosition) -> RenameRule {
    RenameRule::NumberSequence { start, padding, position }
}

fn base_names(files: &[String]) -> Vec<String> {
    files.iter().map(|p| p.rsplit('/').next().unwrap().to_string()).collect()
}

// --- Conflicts ---

#[test]
fn conflict_no_conflicts_unique_targets() {
    let fs = create_test_dir(&[("file1.txt", "a"), ("file2.txt", "b"), ("file3.txt", "c")]);
    let engine = RenameEngine::new(vec![RenameRule::Prefix("pre_".into())]);
    let plans = engine.plan(&scan(&fs), &mut Session::new(&fs)).unwrap();
    assert!(detect_conflicts(&plans, &mut Session::new(&fs)).is_empty());
}

#[test]
fn conflict_same_target_collision() {
    let fs = create_test_dir(&[("file1.txt", "a"), ("file2.txt", "b")]);
    let plans = vec![
        RenamePlan { source: path("file1.txt"), target: path("result.txt") },
        RenamePlan { source: path("file2.txt"), target: path("result.txt") },
    ];
    let conflicts = detect_conflicts(&plans, &mut Session::new(&fs));
    assert_eq!(conflicts.len(), 1);
    assert!(matches!(conflicts[0].reason, ConflictReason::SameTarget(_)));
}

#[test]
fn conflict_target_exists_on_disk() {
    let fs = create_test_dir(&[("source.txt", "content"), ("existing.txt", "existing content")]);
    let plans = vec![RenamePlan { source: path("source.txt"), target: path("existing.txt") }];
    let conflicts = detect_conflicts(&plans, &mut Session::new(&fs));
    assert_eq!(conflicts.len(), 1);
    assert!(matches!(conflicts[0].reason, ConflictReason::TargetExists(_)));
}

#[test]
fn conflict_no_conflict_noop() {
    let fs = create_test_dir(&[("file.txt", "c")]);
    let plans = vec![RenamePlan { source: path("file.txt"), target: path("file.txt") }];
    assert!(detect_conflicts(&plans, &mut Session::new(&fs)).is_empty());
}

#[test]
fn conflict_mixed_reasons() {
    let fs = create_test_dir(&[("a.txt", "a"), ("b.txt", "b"), ("existing.txt", "exists")]);
    let plans = vec![
        RenamePlan { source: path("a.txt"), target: path("result.txt") },
        RenamePlan { source: path("b.txt"), target: path("result.txt") },
        RenamePlan { source: path("a.txt"), target: path("existing.txt") },
    ];
    let conflicts = detect_conflicts(&plans, &mut Session::new(&fs));
    assert!(conflicts.len() >= 2);
    assert!(conflicts.iter().any(|c| matches!(c.reason, ConflictReason::SameTarget(_))));
    assert!(conflicts.iter().any(|c| matches!(c.reason, ConflictReason::TargetExists(_))));
}

#[test]
fn conflict_detected_via_engine() {
    let fs = create_test_dir(&[("alpha.txt", "a"), ("beta.txt", "b")]);
    let engine = RenameEngine::new(vec![RenameRule::FindReplace { find: "alpha".into(), replace: "beta".into() }]);
    let plans = engine.plan(&scan(&fs), &mut Session::new(&fs)).unwrap();
    assert_eq!(plans.len(), 2);
    assert!(!detect_conflicts(&plans, &mut Session::new(&fs)).is_empty());
}

#[test]
fn conflict_target_exists_via_engine() {
    let fs = create_test_dir(&[("file1.txt", "a"), ("target.txt", "existing")]);
    let engine = RenameEngine::new(vec![RenameRule::FindReplace { find: "file1".into(), replace: "target".into() }]);
    let plans = engine.plan(&scan(&fs), &mut Session::new(&fs)).unwrap();
    assert!(!detect_conflicts(&plans, &mut Session::new(&fs)).is_empty());
}

// --- Sequence numbers ---

#[test]
fn counter_prefix() {
    let fs = create_test_dir(&[("alpha.txt", "a"), ("beta.txt", "b"), ("gamma.txt", "c")]);
    let results = run(&fs, vec![counter(1, 3, SeqPosition::Prefix)]);
    assert!(results.iter().all(|r| r.success));
    assert_eq!(fs.file_names(), vec!["001alpha.txt", "002beta.txt", "003gamma.txt"]);
}

#[test]
fn counter_suffix() {
    let fs = create_test_dir(&[("a.txt", "c"), ("b.txt", "c")]);
    let results = run(&fs, vec![counter(10, 2, SeqPosition::Suffix)]);
    assert!(results.iter().all(|r| r.success));
    assert_eq!(fs.file_names(), vec!["a10.txt", "b11.txt"]);
}

#[test]
fn counter_prefix_direct() {
    let fs = create_test_dir(&[("file1.txt", "c"), ("file2.txt", "c")]);
    let results = run(&fs, vec![counter(1, 2, SeqPosition::Prefix)]);
    assert!(results.iter().all(|r| r.success));
    assert_eq!(fs.file_names(), vec!["01file1.txt", "02file2.txt"]);
}

#[test]
fn counter_zero_padding() {
    let fs = create_test_dir(&[("a.txt", "c"), ("b.txt", "c"), ("c.txt", "c")]);
    let results = run(&fs, vec![counter(1, 1, SeqPosition::Prefix)]);
    assert!(results.iter().all(|r| r.success));
    assert_eq!(fs.file_names(), vec!["1a.txt", "2b.txt", "3c.txt"]);
}

#[test]
fn counter_custom_start() {
    let fs = create_test_dir(&[("x.txt", "c"), ("y.txt", "c")]);
    let results = run(&fs, vec![counter(100, 3, SeqPosition::Prefix)]);
    assert!(results.iter().all(|r| r.success));
    assert_eq!(fs.file_names(), vec!["100x.txt", "101y.txt"]);
}

#[test]
fn counter_chained_with_case() {
    let fs = create_test_dir(&[("item.txt", "c"), ("product.txt", "c")]);
    let results = run(&fs, vec![counter(1, 2, SeqPosition::Prefix), RenameRule::CaseTransform(Case::Upper)]);
    assert!(results.iter().all(|r| r.success));
    assert_eq!(fs.file_names(), vec!["01ITEM.txt", "02PRODUCT.txt"]);
}

#[test]
fn counter_with_extension_change() {
    let fs = create_test_dir(&[("file.txt", "c")]);
    let results = run(
        &fs,
        vec![counter(1, 3, SeqPosition::Prefix), RenameRule::ChangeExtension { new_ext: Some("md".into()) }],
    );
    assert!(results[0].success);
    assert_eq!(fs.file_names(), vec!["001file.md"]);
}

#[test]
fn counter_single_file() {
    let fs = create_test_dir(&[("only.txt", "c")]);
    let results = run(&fs, vec![counter(42, 3, SeqPosition::Prefix)]);
    assert!(results[0].success);
    assert_eq!(fs.file_names(), vec!["042only.txt"]);
}

#[test]
fn counter_preserves_content() {
    let fs = create_test_dir(&[("doc.txt", "important content")]);
    let results = run(&fs, vec![counter(1, 2, SeqPosition::Prefix)]);
    assert!(results[0].success);
    assert_eq!(fs.read_content("01doc.txt"), "important content");
}

#[test]
fn counter_many_files() {
    let fs = create_test_dir(&[("a.txt", "c1"), ("b.txt", "c2"), ("c.txt", "c3"), ("d.txt", "c4"), ("e.txt", "c5")]);
    let results = run(&fs, vec![counter(1, 3, SeqPosition::Prefix)]);
    assert_eq!(results.len(), 5);
    assert!(results.iter().all(|r| r.success));
    assert_eq!(fs.file_names(), vec!["001a.txt", "002b.txt", "003c.txt", "004d.txt", "005e.txt"]);
    assert_eq!(fs.read_content("001a.txt"), "c1");
    assert_eq!(fs.read_content("005e.txt"), "c5");
}

// --- Errors and edge cases ---

#[test]
fn error_invalid_include_regex() {
    let fs = create_test_dir(&[("file.txt", "c")]);
    let options = ScanOptions { include_pattern: Some(r"[invalid".into()), ..Default::default() };
    assert!(scan_files(DIR, &options, &mut Session::new(&fs)).is_err());
}

#[test]
fn error_invalid_exclude_regex() {
    let fs = create_test_dir(&[("file.txt", "c")]);
    let options = ScanOptions { exclude_pattern: Some(r"(unclosed".into()), ..Default::default() };
    assert!(scan_files(DIR, &options, &mut Session::new(&fs)).is_err());
}

#[test]
fn edge_noop_rename_succeeds() {
    let fs = create_test_dir(&[("file.txt", "c")]);
    let results = run(&fs, vec![]);
    assert!(results[0].success);
    assert_eq!(results[0].source, results[0].target);
    assert_eq!(fs.file_names(), vec!["file.txt"]);
    assert_eq!(fs.read_content("file.txt"), "c");
}

#[test]
fn edge_single_file() {
    let fs = create_test_dir(&[("only.txt", "content")]);
    let results = run(&fs, vec![RenameRule::Prefix("pre_".into())]);
    assert!(results[0].success);
    assert_eq!(fs.file_names(), vec!["pre_only.txt"]);
    assert_eq!(fs.read_content("pre_only.txt"), "content");
}

#[test]
fn edge_filename_at_255_bytes() {
    let fs = create_test_dir(&[]);
    let stem = "a".repeat(251);
    fs.write(&format!("{stem}.txt"), "c");
    let engine = RenameEngine::new(vec![]);
    let plans = engine.plan(&scan(&fs), &mut Session::new(&fs)).unwrap();
    assert_eq!(plans.len(), 1);
    let target_name = plans[0].target.rsplit('/').next().unwrap();
    assert_eq!(target_name.len(), 255);
}

#[test]
fn plan_truncates_long_filename() {
    let fs = create_test_dir(&[]);
    let long_name = "a".repeat(240);
    fs.write(&format!("{long_name}.txt"), "content");
    let engine = RenameEngine::new(vec![RenameRule::Prefix("very_long_prefix_that_makes_this_exceed_the_limit_".into())]);
    let plans = engine.plan(&[path(&format!("{long_name}.txt"))], &mut Session::new(&fs)).unwrap();
    assert_eq!(plans.len(), 1);
    let target_name = plans[0].target.rsplit('/').next().unwrap();
    assert!(target_name.len() <= 255);
    assert!(target_name.ends_with(".txt"));
}

#[test]
fn edge_empty_dir_scan() {
    let fs = create_test_dir(&[]);
    assert!(scan(&fs).is_empty());
}

#[test]
fn edge_rules_chain_find_suffix() {
    let fs = create_test_dir(&[("test_file.txt", "c")]);
    let results = run(
        &fs,
        vec![RenameRule::FindReplace { find: "_".into(), replace: "-".into() }, RenameRule::Suffix("_v2".into())],
    );
    assert!(results[0].success);
    assert_eq!(fs.file_names(), vec!["test-file_v2.txt"]);
}

#[test]
fn edge_case_and_extension() {
    let fs = create_test_dir(&[("my_file.txt", "c")]);
    let results = run(
        &fs,
        vec![RenameRule::CaseTransform(Case::Upper), RenameRule::ChangeExtension { new_ext: Some("md".into()) }],
    );
    assert!(results[0].success);
    assert_eq!(fs.file_names(), vec!["MY_FILE.md"]);
}

#[test]
fn edge_extension_filter_no_match() {
    let fs = create_test_dir(&[("a.txt", "c"), ("b.txt", "c")]);
    let options = ScanOptions { extensions: Some(vec!["jpg".into()]), ..Default::default() };
    assert!(scan_files(DIR, &options, &mut Session::new(&fs)).unwrap().is_empty());
}

#[test]
fn edge_multiple_rules_order() {
    let fs = create_test_dir(&[("file.txt", "c")]);
    let results = run(&fs, vec![RenameRule::Prefix("A_".into()), RenameRule::Prefix("B_".into())]);
    assert!(results[0].success);
    assert_eq!(fs.file_names(), vec!["B_A_file.txt"]);
}

#[test]
fn edge_suffix_and_counter() {
    let fs = create_test_dir(&[("a.txt", "c1"), ("b.txt", "c2")]);
    let results = run(&fs, vec![RenameRule::Suffix("_copy".into()), counter(1, 2, SeqPosition::Prefix)]);
    assert!(results.iter().all(|r| r.success));
    assert_eq!(fs.file_names(), vec!["01a_copy.txt", "02b_copy.txt"]);
}

// --- Extension changes ---

fn change_ext(ext: &str) -> RenameRule {
    RenameRule::ChangeExtension { new_ext: Some(ext.into()) }
}

#[test]
fn extension_change_txt_to_md() {
    let fs = create_test_dir(&[("readme.txt", "content"), ("notes.txt", "notes")]);
    let results = run(&fs, vec![change_ext("md")]);
    assert!(results.iter().all(|r| r.success));
    assert_eq!(fs.file_names(), vec!["notes.md", "readme.md"]);
    assert_eq!(fs.read_content("readme.md"), "content");
}

#[test]
fn extension_remove() {
    let fs = create_test_dir(&[("file.txt", "c")]);
    let results = run(&fs, vec![change_ext("")]);
    assert!(results[0].success);
    assert_eq!(fs.file_names(), vec!["file"]);
}

#[test]
fn extension_change_with_prefix() {
    let fs = create_test_dir(&[("doc.txt", "c")]);
    let results = run(&fs, vec![RenameRule::Prefix("backup_".into()), change_ext("bak")]);
    assert!(results[0].success);
    assert_eq!(fs.file_names(), vec!["backup_doc.bak"]);
}

#[test]
fn extension_no_existing_ext() {
    let fs = create_test_dir(&[("Makefile", "all: build")]);
    let results = run(&fs, vec![change_ext("mk")]);
    assert!(results[0].success);
    assert_eq!(fs.file_names(), vec!["Makefile.mk"]);
}

#[test]
fn extension_multiple_changes() {
    let fs = create_test_dir(&[("file.txt", "c")]);
    let results = run(&fs, vec![change_ext("md"), change_ext("html")]);
    assert!(results[0].success);
    assert_eq!(fs.file_names(), vec!["file.html"]);
}

#[test]
fn extension_preserves_content() {
    let fs = create_test_dir(&[("data.csv", "col1,col2\n1,2")]);
    let results = run(&fs, vec![change_ext("tsv")]);
    assert!(results[0].success);
    assert_eq!(fs.read_content("data.tsv"), "col1,col2\n1,2");
}

#[test]
fn extension_change_with_regex() {
    let fs = create_test_dir(&[("photo_001.jpg", "c"), ("photo_002.jpg", "c")]);
    let results = run(
        &fs,
        vec![RenameRule::RegexReplace { pattern: r"photo_(\d+)".into(), replacement: "image_$1".into() }, change_ext("png")],
    );
    assert!(results.iter().all(|r| r.success));
    assert_eq!(fs.file_names(), vec!["image_001.png", "image_002.png"]);
}

#[test]
fn extension_many_files() {
    let fs = create_test_dir(&[("a.txt", "c1"), ("b.txt", "c2"), ("c.txt", "c3"), ("d.txt", "c4")]);
    let results = run(&fs, vec![change_ext("md")]);
    assert_eq!(results.len(), 4);
    assert!(results.iter().all(|r| r.success));
    assert_eq!(fs.file_names(), vec!["a.md", "b.md", "c.md", "d.md"]);
}

#[test]
fn extension_change_with_find_replace() {
    let fs = create_test_dir(&[("document_final.txt", "c")]);
    let results = run(&fs, vec![RenameRule::FindReplace { find: "_final".into(), replace: "".into() }, change_ext("md")]);
    assert!(results[0].success);
    assert_eq!(fs.file_names(), vec!["document.md"]);
}

#[test]
fn extension_same_value_noop() {
    let fs = create_test_dir(&[]);
    let engine = RenameEngine::new(vec![change_ext("txt")]);
    let plans = engine.plan(&[path("file.txt")], &mut Session::new(&fs)).unwrap();
    let results = engine.apply(&plans, &mut Session::new(&fs)).unwrap();
    assert!(results[0].success);
    assert_eq!(results[0].source, results[0].target);
}

// --- Regex renames ---

fn regex(pattern: &str, replacement: &str) -> RenameRule {
    RenameRule::RegexReplace { pattern: pattern.into(), replacement: replacement.into() }
}

#[test]
fn regex_basic_replacement() {
    let fs = create_test_dir(&[("photo_2024_01_15.jpg", "c1"), ("photo_2024_02_20.jpg", "c2")]);
    let results = run(&fs, vec![regex(r"(\d{4})_(\d{2})_(\d{2})", "$1-$2-$3")]);
    assert!(results.iter().all(|r| r.success));
    let names = fs.file_names();
    assert!(names.contains(&"photo_2024-01-15.jpg".to_string()));
    assert!(names.contains(&"photo_2024-02-20.jpg".to_string()));
}

#[test]
fn regex_capture_groups() {
    let fs = create_test_dir(&[("file_abc_123.txt", "c"), ("file_def_456.txt", "c")]);
    let results = run(&fs, vec![regex(r"file_(\w+)_(\d+)", "${2}_${1}")]);
    assert!(results.iter().all(|r| r.success));
    assert_eq!(fs.file_names(), vec!["123_abc.txt", "456_def.txt"]);
}

#[test]
fn regex_no_match_unchanged() {
    let fs = create_test_dir(&[]);
    let engine = RenameEngine::new(vec![regex(r"^\d+_", "")]);
    let plans = engine.plan(&[path("readme.md"), path("license.txt")], &mut Session::new(&fs)).unwrap();
    assert!(plans.iter().all(|p| p.source == p.target));
}

#[test]
fn regex_replace_all() {
    let fs = create_test_dir(&[("aaa_bbb_aaa.txt", "c")]);
    let results = run(&fs, vec![regex("aaa", "xxx")]);
    assert!(results[0].success);
    assert_eq!(fs.file_names(), vec!["xxx_bbb_xxx.txt"]);
}

#[test]
fn regex_case_insensitive() {
    let fs = create_test_dir(&[("MyDocument.txt", "c")]);
    let results = run(&fs, vec![regex(r"(?i)^my", "the")]);
    assert!(results[0].success);
    assert_eq!(fs.file_names(), vec!["theDocument.txt"]);
}

#[test]
fn regex_invalid_pattern_errors() {
    let fs = create_test_dir(&[("file.txt", "c")]);
    let engine = RenameEngine::new(vec![regex(r"[invalid", "x")]);
    assert!(engine.plan(&scan(&fs), &mut Session::new(&fs)).is_err());
}

#[test]
fn regex_chained_with_prefix() {
    let fs = create_test_dir(&[("file_001.txt", "c")]);
    let results = run(&fs, vec![regex(r"_00(\d)", "-$1"), RenameRule::Prefix("doc_".into())]);
    assert!(results[0].success);
    assert_eq!(fs.file_names(), vec!["doc_file-1.txt"]);
}

#[test]
fn regex_special_chars_in_replacement() {
    let fs = create_test_dir(&[("file.txt", "c")]);
    let results = run(&fs, vec![regex("file", "file (copy)")]);
    assert!(results[0].success);
    assert_eq!(fs.file_names(), vec!["file (copy).txt"]);
}

#[test]
fn regex_empty_match() {
    let fs = create_test_dir(&[("file.txt", "c")]);
    let results = run(&fs, vec![regex(r"^", "prefix_")]);
    assert!(results[0].success);
    assert_eq!(fs.file_names(), vec!["prefix_file.txt"]);
}

#[test]
fn regex_multiple_files() {
    let fs = create_test_dir(&[("IMG_001.jpg", "c"), ("IMG_002.jpg", "c"), ("IMG_003.jpg", "c")]);
    let results = run(&fs, vec![regex(r"IMG_(\d+)", "photo_$1")]);
    assert!(results.iter().all(|r| r.success));
    assert_eq!(fs.file_names(), vec!["photo_001.jpg", "photo_002.jpg", "photo_003.jpg"]);
}

// --- Whole workflows ---

#[test]
fn full_rename_workflow_prefix() {
    let fs = create_test_dir(&[("photo1.jpg", "content1"), ("photo2.jpg", "content2"), ("photo3.jpg", "content3")]);
    let files = scan(&fs);
    assert_eq!(files.len(), 3);
    let engine = RenameEngine::new(vec![RenameRule::Prefix("vacation_".into())]);
    let plans = engine.plan(&files, &mut Session::new(&fs)).unwrap();
    assert_eq!(plans.len(), 3);
    let results = engine.apply(&plans, &mut Session::new(&fs)).unwrap();
    assert!(results.iter().all(|r| r.success));
    assert_eq!(fs.file_names(), vec!["vacation_photo1.jpg", "vacation_photo2.jpg", "vacation_photo3.jpg"]);
}

#[test]
fn full_rename_preserves_content() {
    let fs = create_test_dir(&[("doc1.txt", "hello world"), ("doc2.txt", "foo bar")]);
    run(&fs, vec![RenameRule::Prefix("prefix_".into())]);
    assert_eq!(fs.read_content("prefix_doc1.txt"), "hello world");
    assert_eq!(fs.read_content("prefix_doc2.txt"), "foo bar");
}

#[test]
fn full_rename_multiple_rules() {
    let fs = create_test_dir(&[("file1.txt", "c1"), ("file2.txt", "c2")]);
    run(
        &fs,
        vec![RenameRule::Prefix("pre_".into()), RenameRule::Suffix("_suf".into()), RenameRule::CaseTransform(Case::Upper)],
    );
    assert_eq!(fs.file_names(), vec!["PRE_FILE1_SUF.txt", "PRE_FILE2_SUF.txt"]);
}

#[test]
fn full_rename_dry_run() {
    let fs = create_test_dir(&[("a.txt", "content"), ("b.txt", "content")]);
    let engine = RenameEngine::new(vec![RenameRule::Prefix("new_".into())]);
    let plans = engine.plan(&scan(&fs), &mut Session::new(&fs)).unwrap();
    assert_eq!(plans.len(), 2);
    assert_eq!(fs.file_names(), vec!["a.txt", "b.txt"]);
}

#[test]
fn full_rename_empty_dir() {
    let fs = create_test_dir(&[]);
    let files = scan(&fs);
    assert!(files.is_empty());
    let engine = RenameEngine::new(vec![RenameRule::Prefix("pre_".into())]);
    assert!(engine.plan(&files, &mut Session::new(&fs)).is_err());
}

#[test]
fn full_rename_no_rules() {
    let fs = create_test_dir(&[]);
    let engine = RenameEngine::new(vec![]);
    let plans = engine.plan(&[path("file1.txt"), path("file2.txt")], &mut Session::new(&fs)).unwrap();
    let results = engine.apply(&plans, &mut Session::new(&fs)).unwrap();
    assert!(results.iter().all(|r| r.success));
    assert!(results.iter().all(|r| r.source == r.target));
}

#[test]
fn full_rename_with_extension_filter() {
    let fs = create_test_dir(&[("photo1.jpg", "c1"), ("photo2.png", "c2"), ("doc1.txt", "c3")]);
    let opts = ScanOptions { extensions: Some(vec!["jpg".into(), "png".into()]), ..Default::default() };
    let files = scan_files(DIR, &opts, &mut Session::new(&fs)).unwrap();
    assert_eq!(files.len(), 2);
    let engine = RenameEngine::new(vec![RenameRule::Prefix("img_".into())]);
    let plans = engine.plan(&files, &mut Session::new(&fs)).unwrap();
    engine.apply(&plans, &mut Session::new(&fs)).unwrap();
    assert_eq!(fs.file_names(), vec!["doc1.txt", "img_photo1.jpg", "img_photo2.png"]);
}

#[test]
fn full_rename_with_include_pattern() {
    let fs = create_test_dir(&[("IMG_001.jpg", "c1"), ("IMG_002.jpg", "c2"), ("DOC_001.txt", "c3")]);
    let opts = ScanOptions { include_pattern: Some(r"^IMG_".into()), ..Default::default() };
    let files = scan_files(DIR, &opts, &mut Session::new(&fs)).unwrap();
    assert_eq!(files.len(), 2);
    let engine = RenameEngine::new(vec![RenameRule::Prefix("photo_".into())]);
    let plans = engine.plan(&files, &mut Session::new(&fs)).unwrap();
    engine.apply(&plans, &mut Session::new(&fs)).unwrap();
    assert_eq!(fs.file_names(), vec!["DOC_001.txt", "photo_IMG_001.jpg", "photo_IMG_002.jpg"]);
}

#[test]
fn full_rename_with_exclude_pattern() {
    let fs = create_test_dir(&[("file1.txt", "c1"), ("file2.txt", "c2"), ("backup_file1.txt", "c3")]);
    let opts = ScanOptions { exclude_pattern: Some(r"^backup_".into()), ..Default::default() };
    let files = scan_files(DIR, &opts, &mut Session::new(&fs)).unwrap();
    assert_eq!(files.len(), 2);
    let engine = RenameEngine::new(vec![RenameRule::Suffix("_v2".into())]);
    let plans = engine.plan(&files, &mut Session::new(&fs)).unwrap();
    engine.apply(&plans, &mut Session::new(&fs)).unwrap();
    assert_eq!(fs.file_names(), vec!["backup_file1.txt", "file1_v2.txt", "file2_v2.txt"]);
}

#[test]
fn full_rename_recursive() {
    let fs = create_test_dir(&[("root.txt", "rc1"), ("sub/nested.txt", "rc2"), ("sub/deep/deep.txt", "rc3")]);
    let opts = ScanOptions { recursive: true, ..Default::default() };
    let files = scan_files(DIR, &opts, &mut Session::new(&fs)).unwrap();
    assert_eq!(files.len(), 3);
    let engine = RenameEngine::new(vec![RenameRule::Prefix("r_".into())]);
    let plans = engine.plan(&files, &mut Session::new(&fs)).unwrap();
    engine.apply(&plans, &mut Session::new(&fs)).unwrap();
    let names = fs.file_names_recursive();
    assert!(names.contains(&"r_root.txt".to_string()));
    assert!(names.contains(&"sub/r_nested.txt".to_string()));
    assert!(names.contains(&"sub/deep/r_deep.txt".to_string()));
}

#[test]
fn full_rename_remove_text() {
    let fs = create_test_dir(&[("photo_copy.jpg", "c1"), ("doc_copy.txt", "c2")]);
    run(&fs, vec![RenameRule::RemoveText("_copy".into())]);
    assert_eq!(fs.file_names(), vec!["doc.txt", "photo.jpg"]);
}

#[test]
fn full_rename_find_replace() {
    let fs = create_test_dir(&[("2024_photo.jpg", "c1"), ("2024_doc.txt", "c2")]);
    run(&fs, vec![RenameRule::FindReplace { find: "2024".into(), replace: "2025".into() }]);
    assert_eq!(fs.file_names(), vec!["2025_doc.txt", "2025_photo.jpg"]);
}

// --- Scanning ---

#[test]
fn scanner_flat_directory() {
    let fs = create_test_dir(&[("a.txt", "c1"), ("b.txt", "c2"), ("c.jpg", "c3")]);
    let mut names = base_names(&scan(&fs));
    names.sort();
    assert_eq!(names, vec!["a.txt", "b.txt", "c.jpg"]);
}

#[test]
fn scanner_excludes_hidden() {
    let fs = create_test_dir(&[("visible.txt", "c")]);
    fs.write(".hidden", "secret");
    let names = base_names(&scan(&fs));
    assert_eq!(names, vec!["visible.txt"]);
    assert!(!names.contains(&".hidden".to_string()));
}

#[test]
fn scanner_includes_hidden() {
    let fs = create_test_dir(&[("visible.txt", "c")]);
    fs.write(".hidden", "secret");
    let opts = ScanOptions { include_hidden: true, ..Default::default() };
    let names = base_names(&scan_files(DIR, &opts, &mut Session::new(&fs)).unwrap());
    assert!(names.contains(&".hidden".to_string()));
    assert!(names.contains(&"visible.txt".to_string()));
}

#[test]
fn scanner_extension_filter() {
    let fs = create_test_dir(&[("a.txt", "c"), ("b.txt", "c"), ("c.jpg", "c"), ("d.png", "c")]);
    let opts = ScanOptions { extensions: Some(vec!["txt".into()]), ..Default::default() };
    let mut names = base_names(&scan_files(DIR, &opts, &mut Session::new(&fs)).unwrap());
    names.sort();
    assert_eq!(names, vec!["a.txt", "b.txt"]);
}

#[test]
fn scanner_multiple_extensions() {
    let fs = create_test_dir(&[("a.txt", "c"), ("b.jpg", "c"), ("c.png", "c")]);
    let opts = ScanOptions { extensions: Some(vec!["txt".into(), "png".into()]), ..Default::default() };
    let mut names = base_names(&scan_files(DIR, &opts, &mut Session::new(&fs)).unwrap());
    names.sort();
    assert_eq!(names, vec!["a.txt", "c.png"]);
}

#[test]
fn scanner_include_pattern() {
    let fs = create_test_dir(&[("photo_001.jpg", "c"), ("photo_002.jpg", "c"), ("doc.txt", "c")]);
    let opts = ScanOptions { include_pattern: Some(r"^photo_".into()), ..Default::default() };
    let mut names = base_names(&scan_files(DIR, &opts, &mut Session::new(&fs)).unwrap());
    names.sort();
    assert_eq!(names, vec!["photo_001.jpg", "photo_002.jpg"]);
}

#[test]
fn scanner_exclude_pattern() {
    let fs = create_test_dir(&[("a.txt", "c"), ("b.txt", "c"), ("c.jpg", "c")]);
    let opts = ScanOptions { exclude_pattern: Some(r"\.jpg$".into()), ..Default::default() };
    let mut names = base_names(&scan_files(DIR, &opts, &mut Session::new(&fs)).unwrap());
    names.sort();
    assert_eq!(names, vec!["a.txt", "b.txt"]);
}

#[test]
fn scanner_non_recursive() {
    let fs = create_test_dir(&[("top.txt", "c")]);
    fs.write("subdir/nested.txt", "c");
    let opts = ScanOptions { recursive: false, ..Default::default() };
    assert_eq!(base_names(&scan_files(DIR, &opts, &mut Session::new(&fs)).unwrap()), vec!["top.txt"]);
}

#[test]
fn scanner_recursive() {
    let fs = create_test_dir(&[("top.txt", "c")]);
    fs.write("subdir/nested.txt", "c");
    let opts = ScanOptions { recursive: true, ..Default::default() };
    let mut names = base_names(&scan_files(DIR, &opts, &mut Session::new(&fs)).unwrap());
    names.sort();
    assert_eq!(names, vec!["nested.txt", "top.txt"]);
}

#[test]
fn scanner_empty_directory() {
    let fs = create_test_dir(&[]);
    assert!(scan(&fs).is_empty());
}

#[test]
fn scanner_nonexistent_directory() {
    let fs = create_test_dir(&[]);
    let files = scan_files(&path("does_not_exist"), &ScanOptions::default(), &mut Session::new(&fs)).unwrap();
    assert!(files.is_empty());
}

#[test]
fn scanner_sorted() {
    let fs = create_test_dir(&[("zebra.txt", "c"), ("apple.txt", "c"), ("mango.txt", "c")]);
    assert_eq!(base_names(&scan(&fs)), vec!["apple.txt", "mango.txt", "zebra.txt"]);
}

#[test]
fn scanner_combined_filters() {
    let fs = create_test_dir(&[("photo_a.jpg", "c"), ("photo_b.jpg", "c"), ("doc_a.txt", "c"), ("doc_b.txt", "c")]);
    let opts = ScanOptions {
        include_pattern: Some(r"^photo_".into()),
        extensions: Some(vec!["jpg".into()]),
        ..Default::default()
    };
    let mut names = base_names(&scan_files(DIR, &opts, &mut Session::new(&fs)).unwrap());
    names.sort();
    assert_eq!(names, vec!["photo_a.jpg", "photo_b.jpg"]);
}

// --- Undo ---

const UNDO: &str = "/tmp/nomforge_test_undo_nomforge_it.json";

#[test]
fn undo_single_batch() {
    let fs = create_test_dir(&[("file1.txt", "hello"), ("file2.txt", "world")]);
    let results = run(&fs, vec![RenameRule::Prefix("renamed_".into())]);
    log_renames(UNDO, &results, &mut Session::new(&fs)).unwrap();
    assert_eq!(undo_count(UNDO, &mut Session::new(&fs)).unwrap(), 1);
    assert_eq!(fs.file_names(), vec!["renamed_file1.txt", "renamed_file2.txt"]);
    assert_eq!(revert_last(UNDO, &mut Session::new(&fs)).unwrap(), 2);
    assert_eq!(fs.file_names(), vec!["file1.txt", "file2.txt"]);
    assert_eq!(fs.read_content("file1.txt"), "hello");
    assert_eq!(fs.read_content("file2.txt"), "world");
}

#[test]
fn undo_multi_batch() {
    let fs = create_test_dir(&[("a.txt", "content_a"), ("b.txt", "content_b")]);
    let results = run(&fs, vec![RenameRule::Prefix("batch1_".into())]);
    log_renames(UNDO, &results, &mut Session::new(&fs)).unwrap();
    assert_eq!(undo_count(UNDO, &mut Session::new(&fs)).unwrap(), 1);
    assert_eq!(fs.file_names(), vec!["batch1_a.txt", "batch1_b.txt"]);
    let results = run(&fs, vec![RenameRule::Prefix("batch2_".into())]);
    log_renames(UNDO, &results, &mut Session::new(&fs)).unwrap();
    assert_eq!(undo_count(UNDO, &mut Session::new(&fs)).unwrap(), 2);
    assert_eq!(fs.file_names(), vec!["batch2_batch1_a.txt", "batch2_batch1_b.txt"]);
    assert_eq!(revert_last(UNDO, &mut Session::new(&fs)).unwrap(), 2);
    assert_eq!(undo_count(UNDO, &mut Session::new(&fs)).unwrap(), 1);
    assert_eq!(fs.file_names(), vec!["batch1_a.txt", "batch1_b.txt"]);
    assert_eq!(revert_last(UNDO, &mut Session::new(&fs)).unwrap(), 2);
    assert_eq!(undo_count(UNDO, &mut Session::new(&fs)).unwrap(), 0);
    assert_eq!(fs.file_names(), vec!["a.txt", "b.txt"]);
    assert_eq!(fs.read_content("a.txt"), "content_a");
}

#[test]
fn undo_when_target_deleted() {
    let fs = create_test_dir(&[("file1.txt", "content"), ("file2.txt", "content2")]);
    let results = run(&fs, vec![RenameRule::Prefix("renamed_".into())]);
    log_renames(UNDO, &results, &mut Session::new(&fs)).unwrap();
    fs.remove("renamed_file1.txt");
    let reverted = revert_last(UNDO, &mut Session::new(&fs)).unwrap();
    assert!(reverted <= 2);
    assert_eq!(reverted, 1);
    assert!(fs.file_names().contains(&"file2.txt".to_string()));
}

#[test]
fn undo_count_decreases_after_revert() {
    let fs = create_test_dir(&[("file.txt", "c")]);
    for i in 0..3 {
        let results = run(&fs, vec![RenameRule::Prefix(format!("batch{i}_"))]);
        log_renames(UNDO, &results, &mut Session::new(&fs)).unwrap();
    }
    assert_eq!(undo_count(UNDO, &mut Session::new(&fs)).unwrap(), 3);
    revert_last(UNDO, &mut Session::new(&fs)).unwrap();
    assert_eq!(undo_count(UNDO, &mut Session::new(&fs)).unwrap(), 2);
    revert_last(UNDO, &mut Session::new(&fs)).unwrap();
    assert_eq!(undo_count(UNDO, &mut Session::new(&fs)).unwrap(), 1);
    revert_last(UNDO, &mut Session::new(&fs)).unwrap();
    assert_eq!(undo_count(UNDO, &mut Session::new(&fs)).unwrap(), 0);
    assert_eq!(fs.file_names(), vec!["file.txt"]);
}

#[test]
fn undo_no_history_errors() {
    let fs = create_test_dir(&[]);
    assert!(revert_last(&path("nonexistent.json"), &mut Session::new(&fs)).is_err());
}

#[test]
fn undo_log_empty_results_is_noop() {
    let fs = create_test_dir(&[]);
    let undo_path = path("undo.json");
    log_renames(&undo_path, &[], &mut Session::new(&fs)).unwrap();
    assert_eq!(undo_count(&undo_path, &mut Session::new(&fs)).unwrap(), 0);
    assert!(!fs.path_exists(&undo_path));
}

#[test]
fn undo_log_only_successful() {
    let fs = create_test_dir(&[("file.txt", "c")]);
    let results = vec![
        RenameResult { source: path("file.txt"), target: path("renamed.txt"), success: true, error: None },
        RenameResult {
            source: path("nonexistent.txt"),
            target: path("nonexistent_renamed.txt"),
            success: false,
            error: Some("not found".into()),
        },
    ];
    log_renames(UNDO, &results, &mut Session::new(&fs)).unwrap();
    assert_eq!(undo_count(UNDO, &mut Session::new(&fs)).unwrap(), 1);
}

#[test]
fn undo_default_path_works() {
    let fs = create_test_dir(&[]);
    let p = default_undo_log_path(&mut Session::new(&fs));
    assert!(p.contains("nomforge"));
    assert!(p.ends_with(".json"));
}

#[test]
fn default_undo_log_path_works() {
    let fs = create_test_dir(&[]);
    let p = default_undo_log_path(&mut Session::new(&fs));
    assert!(p.contains("nomforge"));
    assert!(p.ends_with("undo_log.json"));
}

// --- The command-line runs ---

fn rename_run(fs: &MemFs, rules: Vec<RenameRule>, apply: bool, no_undo: bool) -> nomforge::command::RenameRun {
    rename_command(DIR, rules, &ScanOptions::default(), apply, no_undo, Some(UNDO.to_string()), &mut Session::new(fs))
}

#[test]
fn rename_command_previews_without_renaming() {
    let fs = create_test_dir(&[("a.txt", "1"), ("b.txt", "2")]);
    let run = rename_run(&fs, vec![RenameRule::Prefix("p_".into())], false, false);
    assert!(run.scanned && !run.applied && run.stop.is_none());
    assert_eq!(run.plans.len(), 2);
    assert_eq!(run.plans[0].target, path("p_a.txt"));
    assert_eq!(fs.file_names(), vec!["a.txt", "b.txt"]);
}

#[test]
fn rename_command_applies_logs_and_undo_reverts() {
    let fs = create_test_dir(&[("a.txt", "1"), ("b.txt", "2")]);
    let run = rename_run(&fs, vec![RenameRule::Prefix("p_".into())], true, false);
    assert!(run.applied && run.stop.is_none());
    assert_eq!(run.logged_to.as_deref(), Some(UNDO));
    assert_eq!(fs.file_names(), vec!["p_a.txt", "p_b.txt"]);
    let undo = undo_command(Some(UNDO.to_string()), &mut Session::new(&fs)).unwrap();
    assert_eq!(undo.count, 1);
    assert_eq!(undo.reverted, Some(2));
    assert_eq!(fs.file_names(), vec!["a.txt", "b.txt"]);
    let again = undo_command(Some(UNDO.to_string()), &mut Session::new(&fs)).unwrap();
    assert_eq!(again.count, 0);
    assert_eq!(again.reverted, None);
}

#[test]
fn rename_command_without_undo_log() {
    let fs = create_test_dir(&[("a.txt", "1")]);
    let run = rename_run(&fs, vec![RenameRule::Suffix("_s".into())], true, true);
    assert!(run.applied && run.logged_to.is_none());
    assert_eq!(fs.file_names(), vec!["a_s.txt"]);
    assert_eq!(undo_command(Some(UNDO.to_string()), &mut Session::new(&fs)).unwrap().count, 0);
}

#[test]
fn rename_command_stops() {
    let fs = create_test_dir(&[("a.txt", "1")]);
    let missing = rename_command(
        &path("missing"),
        vec![],
        &ScanOptions::default(),
        false,
        false,
        None,
        &mut Session::new(&fs),
    );
    assert!(!missing.scanned);
    assert!(matches!(missing.stop, Some(RenameStop::Failed(nomforge::error::NomforgeError::FileNotFound(_)))));
    fs.write("sub/x.txt", "x");
    let none = rename_command(&path("sub"), vec![], &ScanOptions { include_pattern: Some("^zzz".into()), ..ScanOptions::default() }, false, false, None, &mut Session::new(&fs));
    assert!(none.scanned && none.files.is_empty() && none.stop.is_none());
    fs.write("b.txt", "2");
    let overflow = rename_run(&fs, vec![counter(usize::MAX, 1, SeqPosition::Prefix), RenameRule::Prefix("x".into())], false, false);
    assert!(matches!(overflow.stop, Some(RenameStop::CounterOverflow)));
    let bad = rename_run(&fs, vec![RenameRule::ChangeExtension { new_ext: Some("a/b".into()) }], false, false);
    assert!(matches!(bad.stop, Some(RenameStop::Failed(nomforge::error::NomforgeError::InvalidExtension { .. }))));
}

#[test]
fn counters_fit_limits() {
    assert!(counters_fit(&[counter(usize::MAX, 1, SeqPosition::Prefix)], 1));
    assert!(!counters_fit(&[counter(usize::MAX, 1, SeqPosition::Prefix)], 2));
    assert!(counters_fit(&[RenameRule::Prefix("x".into())], usize::MAX));
    assert!(counters_fit(&[counter(5, 1, SeqPosition::Prefix)], 0));
}
