//! Selecting the files to rename from a directory walk.

use vstd::prelude::*;
use crate::error::{NomforgeError, Result};
use crate::host::{asked_since, extends, lemma_asked_none, lemma_asked_push, Host, HostCall, Session, WalkEntry};
use crate::order::{paths_sorted, sort_paths, texts};
use crate::path::{file_name, file_name_of, split_name, stem_and_extension};
use crate::pattern::{compile, error_text, is_match, regex_accepts, regex_matches, CompiledPattern};
use crate::text::chars_of;
use crate::unicode::{eq_ignore_ascii_case, same_ignoring_ascii_case};

verus! {

/// Options for scanning files in a directory.
#[derive(Debug, Clone)]
pub struct ScanOptions {
    /// Scan subdirectories recursively.
    pub recursive: bool,
    /// Only include files matching this regex pattern.
    pub include_pattern: Option<String>,
    /// Exclude files matching this regex pattern.
    pub exclude_pattern: Option<String>,
    /// Only include files with these extensions (without dot).
    pub extensions: Option<Vec<String>>,
    /// Include hidden files (starting with `.`).
    pub include_hidden: bool,
}

impl Default for ScanOptions {
    fn default() -> (r: Self)
        ensures
            !r.recursive,
            r.include_pattern is None,
            r.exclude_pattern is None,
            r.extensions is None,
            !r.include_hidden,
    {
        ScanOptions {
            recursive: false,
            include_pattern: None,
            exclude_pattern: None,
            extensions: None,
            include_hidden: false,
        }
    }
}

/// The extension of a path's file name, if it has one.
pub open spec fn path_extension(path: Seq<char>) -> Option<Seq<char>> {
    match file_name_of(path) {
        Some(n) => stem_and_extension(n).1,
        None => None,
    }
}

/// The path passes the extension filter: no filter (or an empty one), or its
/// extension equals one of the listed ones up to ASCII case.
pub open spec fn extension_selected(path: Seq<char>, extensions: Option<Vec<String>>) -> bool {
    match extensions {
        Some(exts) => exts@.len() == 0 || match path_extension(path) {
            Some(x) => exists|k: int| 0 <= k < exts@.len() && eq_ignore_ascii_case(#[trigger] exts@[k]@, x),
            None => false,
        },
        None => true,
    }
}

/// A walk entry is selected: a regular file, not hidden unless hidden files
/// are included, its name matching the include pattern and not the exclude
/// pattern, and its extension passing the extension filter.
pub open spec fn entry_selected(e: WalkEntry, opts: ScanOptions) -> bool {
    &&& e.is_file
    &&& (opts.include_hidden || !(e.file_name@.len() > 0 && e.file_name@[0] == '.'))
    &&& match opts.include_pattern {
        Some(p) => regex_matches(p@, e.file_name@),
        None => true,
    }
    &&& match opts.exclude_pattern {
        Some(p) => !regex_matches(p@, e.file_name@),
        None => true,
    }
    &&& extension_selected(e.path@, opts.extensions)
}

/// The paths of the selected entries, in walk order.
pub open spec fn selected_paths(entries: Seq<WalkEntry>, opts: ScanOptions) -> Seq<Seq<char>>
    decreases entries.len(),
{
    if entries.len() == 0 {
        Seq::<Seq<char>>::empty()
    } else {
        let rest = selected_paths(entries.drop_last(), opts);
        if entry_selected(entries.last(), opts) {
            rest.push(entries.last().path@)
        } else {
            rest
        }
    }
}

/// The patterns of the options compile; otherwise the error names the first
/// (include, then exclude) that does not.
pub open spec fn patterns_ok(opts: ScanOptions) -> bool {
    &&& (opts.include_pattern matches Some(p) ==> regex_accepts(p@))
    &&& (opts.exclude_pattern matches Some(p) ==> regex_accepts(p@))
}

/// The error for options whose patterns do not all compile.
pub open spec fn pattern_error(opts: ScanOptions, e: NomforgeError) -> bool {
    match opts.include_pattern {
        Some(p) if !regex_accepts(p@) => e matches NomforgeError::InvalidRegex { pattern: x, .. } && x@ == p@,
        _ => match opts.exclude_pattern {
            Some(p) => e matches NomforgeError::InvalidRegex { pattern: x, .. } && x@ == p@,
            None => false,
        },
    }
}

/// Compiles an optional pattern.
fn compile_optional(pattern: &Option<String>) -> (r: Result<Option<CompiledPattern>>)
    ensures
        match pattern {
            Some(p) => if regex_accepts(p@) {
                r matches Ok(Some(c)) && c@ == p@
            } else {
                r matches Err(e) && (e matches NomforgeError::InvalidRegex { pattern: x, .. } && x@ == p@)
            },
            None => r matches Ok(None),
        },
{
    match pattern {
        Some(p) => match compile(p.as_str()) {
            Ok(c) => Ok(Some(c)),
            Err(e) => Err(NomforgeError::InvalidRegex { pattern: p.clone(), reason: error_text(&e) }),
        },
        None => Ok(None),
    }
}

fn extension_matches(path: &str, extensions: &Option<Vec<String>>) -> (r: bool)
    ensures
        r == extension_selected(path@, *extensions),
{
    match extensions {
        None => true,
        Some(exts) => {
            if exts.len() == 0 {
                return true;
            }
            let ext = match file_name(path) {
                Some(n) => split_name(n.as_str()).1,
                None => None,
            };
            match ext {
                None => {
                    assert(path_extension(path@) is None);
                    false
                },
                Some(x) => {
                    assert(path_extension(path@) == Some(x@));
                    let xs = chars_of(x.as_str());
                    let mut k: usize = 0;
                    while k < exts.len()
                        invariant
                            k <= exts@.len(),
                            xs@ == x@,
                            path_extension(path@) == Some(x@),
                            *extensions == Some(*exts),
                            exts@.len() > 0,
                            forall|j: int| 0 <= j < k ==> !eq_ignore_ascii_case(#[trigger] exts@[j]@, x@),
                        decreases exts@.len() - k,
                    {
                        let e = chars_of(exts[k].as_str());
                        if same_ignoring_ascii_case(e.as_slice(), xs.as_slice()) {
                            assert(eq_ignore_ascii_case(exts@[k as int]@, x@));
                            assert(path_extension(path@) == Some(x@));
                            return true;
                        }
                        k = k + 1;
                    }
                    false
                },
            }
        },
    }
}

/// Selects, from the entries of a directory walk, the files that pass the
/// filters, sorted in path order. Fails when a pattern does not compile.
pub fn select_entries(entries: &[WalkEntry], options: &ScanOptions) -> (r: Result<Vec<String>>)
    ensures
        r is Ok <==> patterns_ok(*options),
        r matches Err(e) ==> pattern_error(*options, e),
        r matches Ok(files) ==> paths_sorted(texts(files@)) && texts(files@).to_multiset()
            == selected_paths(entries@, *options).to_multiset(),
{
    let include_re = compile_optional(&options.include_pattern)?;
    let exclude_re = compile_optional(&options.exclude_pattern)?;
    Ok(select_with(entries, options, &include_re, &exclude_re))
}

/// Selects with the options' patterns already compiled.
fn select_with(
    entries: &[WalkEntry],
    options: &ScanOptions,
    include_re: &Option<CompiledPattern>,
    exclude_re: &Option<CompiledPattern>,
) -> (r: Vec<String>)
    requires
        match options.include_pattern {
            Some(p) => *include_re matches Some(c) && c@ == p@,
            None => include_re is None,
        },
        match options.exclude_pattern {
            Some(p) => *exclude_re matches Some(c) && c@ == p@,
            None => exclude_re is None,
        },
    ensures
        paths_sorted(texts(r@)) && texts(r@).to_multiset() == selected_paths(entries@, *options).to_multiset(),
{
    let mut files: Vec<String> = Vec::new();
    let mut i: usize = 0;
    assert(entries@.take(0) =~= Seq::<WalkEntry>::empty());
    while i < entries.len()
        invariant
            i <= entries@.len(),
            match options.include_pattern {
                Some(p) => include_re matches Some(c) && c@ == p@,
                None => include_re is None,
            },
            match options.exclude_pattern {
                Some(p) => exclude_re matches Some(c) && c@ == p@,
                None => exclude_re is None,
            },
            texts(files@) == selected_paths(entries@.take(i as int), *options),
        decreases entries@.len() - i,
    {
        let e = &entries[i];
        let name = chars_of(e.file_name.as_str());
        let hidden = name.len() > 0 && name[0] == '.';
        let included = match include_re {
            Some(re) => is_match(re, e.file_name.as_str()),
            None => true,
        };
        let excluded = match exclude_re {
            Some(re) => is_match(re, e.file_name.as_str()),
            None => false,
        };
        let keep = e.is_file && (options.include_hidden || !hidden) && included && !excluded
            && extension_matches(e.path.as_str(), &options.extensions);
        proof {
            let upto = entries@.take(i as int + 1);
            assert(upto.drop_last() =~= entries@.take(i as int));
            assert(upto.last() == entries@[i as int]);
            assert(keep == entry_selected(entries@[i as int], *options));
        }
        if keep {
            let ghost before = files@;
            files.push(e.path.clone());
            assert(texts(files@) =~= texts(before).push(e.path@));
        }
        i = i + 1;
    }
    assert(entries@.take(entries@.len() as int) =~= entries@);
    sort_paths(files)
}

/// Scans a directory for files matching the given options, sorted in path
/// order: the patterns are compiled first (a failure asks the host nothing);
/// then the host is asked for the entries under `dir`, and those
/// `select_entries` keeps are returned.
pub fn scan_files<H: Host>(dir: &str, options: &ScanOptions, io: &mut Session<H>) -> (r: Result<Vec<String>>)
    ensures
        extends(old(io)@, final(io)@),
        r is Ok <==> patterns_ok(*options),
        r matches Err(e) ==> pattern_error(*options, e) && asked_since(old(io)@, final(io)@).len() == 0,
        r matches Ok(files) ==> asked_since(old(io)@, final(io)@).len() == 1 && (asked_since(
            old(io)@,
            final(io)@,
        )[0] matches HostCall::Walk { dir: d, recursive, answer } && d == dir@ && recursive == options.recursive
            && paths_sorted(texts(files@)) && texts(files@).to_multiset() == selected_paths(
            answer,
            *options,
        ).to_multiset()),
{
    let ghost start = io@;
    proof {
        lemma_asked_none(start);
    }
    let include_re = compile_optional(&options.include_pattern)?;
    let exclude_re = compile_optional(&options.exclude_pattern)?;
    let entries = io.walk_dir(dir, options.recursive);
    proof {
        lemma_asked_push(start, start, HostCall::Walk { dir: dir@, recursive: options.recursive, answer: entries@ });
    }
    Ok(select_with(entries.as_slice(), options, &include_re, &exclude_re))
}

} // verus!
