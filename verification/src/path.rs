//! Paths as text.
//!
//! A path is a string whose components are separated by `/`. This module
//! splits a path into its parent directory and file name, a file name into
//! stem and extension, and joins them back, following `std::path` on such
//! strings: trailing separators and `.` components are ignored, a name that starts with its only
//! dot has no extension, and joining a name that starts with `/` gives that
//! name.

use vstd::prelude::*;
use crate::text::{chars_of, push_all, string_from_chars};

verus! {

/// Index of the last occurrence of `c` in `s`, or `-1`.
pub open spec fn last_index_of(s: Seq<char>, c: char) -> int
    decreases s.len(),
{
    if s.len() == 0 {
        -1
    } else if s.last() == c {
        s.len() - 1
    } else {
        last_index_of(s.drop_last(), c)
    }
}

/// Whether `s` ends in a separator, or in a `.` component after one.
pub open spec fn ends_in_nothing(s: Seq<char>) -> bool {
    ||| s.len() > 0 && s.last() == '/'
    ||| s.len() >= 2 && s.last() == '.' && s[s.len() - 2] == '/'
}

/// Number of characters at the end of `s` that name nothing: separators, and
/// `.` components after a separator (as `Path::components` skips them).
pub open spec fn trailing_slashes(s: Seq<char>) -> nat
    decreases s.len(),
{
    if ends_in_nothing(s) {
        1 + trailing_slashes(s.drop_last())
    } else {
        0
    }
}

/// `s` without the separators and `.` components at its end.
pub open spec fn without_trailing_slashes(s: Seq<char>) -> Seq<char> {
    s.take(s.len() - trailing_slashes(s))
}

/// The last component of a path, whatever it is.
pub open spec fn last_component(p: Seq<char>) -> Seq<char> {
    let q = without_trailing_slashes(p);
    q.skip(last_index_of(q, '/') + 1)
}

/// The file name of a path (as `Path::file_name`): its last component, unless
/// that is empty, `.` or `..`.
pub open spec fn file_name_of(p: Seq<char>) -> Option<Seq<char>> {
    let n = last_component(p);
    if n.len() == 0 || n == seq!['.'] || n == seq!['.', '.'] {
        None
    } else {
        Some(n)
    }
}

/// The directory part of a path (as `Path::parent`): what precedes the last
/// component, without trailing separators and `.` components; `/` for a component right under
/// the root, empty for a bare name, and none for an empty path or the root.
pub open spec fn parent_of(p: Seq<char>) -> Option<Seq<char>> {
    let q = without_trailing_slashes(p);
    let k = last_index_of(q, '/');
    if q.len() == 0 {
        None
    } else if k < 0 {
        Some(Seq::<char>::empty())
    } else {
        let d = without_trailing_slashes(q.take(k));
        if d.len() == 0 {
            Some(seq!['/'])
        } else {
            Some(d)
        }
    }
}

/// The stem and the extension of a file name (as `Path::file_stem` and
/// `Path::extension`): split at the last dot, unless the name is `..`, has no
/// dot, or its only dot is the first character.
pub open spec fn stem_and_extension(name: Seq<char>) -> (Seq<char>, Option<Seq<char>>) {
    let d = last_index_of(name, '.');
    if name == seq!['.', '.'] || d <= 0 {
        (name, None)
    } else {
        (name.take(d), Some(name.skip(d + 1)))
    }
}

/// `parent` joined with `name` (as `Path::join` for these strings).
pub open spec fn joined(parent: Seq<char>, name: Seq<char>) -> Seq<char> {
    if name.len() > 0 && name[0] == '/' {
        name
    } else if parent.len() == 0 {
        name
    } else if parent.last() == '/' {
        parent + name
    } else {
        parent + seq!['/'] + name
    }
}

proof fn lemma_last_index_bound(s: Seq<char>, c: char)
    ensures
        -1 <= last_index_of(s, c) < s.len(),
        last_index_of(s, c) >= 0 ==> s[last_index_of(s, c)] == c,
    decreases s.len(),
{
    if s.len() > 0 && s.last() != c {
        lemma_last_index_bound(s.drop_last(), c);
    }
}

proof fn lemma_trailing_slashes_bound(s: Seq<char>)
    ensures
        trailing_slashes(s) <= s.len(),
    decreases s.len(),
{
    if ends_in_nothing(s) {
        lemma_trailing_slashes_bound(s.drop_last());
    }
}

/// Index of the last `c` in `s`, or `-1`.
fn find_last(s: &[char], c: char) -> (r: Option<usize>)
    ensures
        match r {
            Some(i) => i == last_index_of(s@, c),
            None => last_index_of(s@, c) == -1,
        },
{
    let mut i: usize = s.len();
    assert(s@.take(s@.len() as int) =~= s@);
    while i > 0
        invariant
            i <= s@.len(),
            last_index_of(s@, c) == last_index_of(s@.take(i as int), c),
        decreases i,
    {
        let ghost part = s@.take(i as int);
        assert(part.last() == s@[i - 1]);
        if s[i - 1] == c {
            return Some(i - 1);
        }
        assert(part.drop_last() =~= s@.take(i - 1));
        i = i - 1;
    }
    assert(s@.take(0) =~= Seq::<char>::empty());
    None
}

/// `s` without the separators and `.` components at its end.
fn strip_slashes(s: &[char]) -> (r: Vec<char>)
    ensures
        r@ == without_trailing_slashes(s@),
{
    let mut end: usize = s.len();
    assert(s@.take(s@.len() as int) =~= s@);
    while end > 0 && (s[end - 1] == '/' || (end >= 2 && s[end - 1] == '.' && s[end - 2] == '/'))
        invariant
            end <= s@.len(),
            trailing_slashes(s@) == (s@.len() - end) + trailing_slashes(s@.take(end as int)),
        decreases end,
    {
        let ghost part = s@.take(end as int);
        assert(part.last() == s@[end - 1]);
        if end >= 2 {
            assert(part[end - 2] == s@[end - 2]);
        }
        assert(ends_in_nothing(part));
        assert(part.drop_last() =~= s@.take(end - 1));
        end = end - 1;
    }
    proof {
        let part = s@.take(end as int);
        if end > 0 {
            assert(part.last() == s@[end - 1]);
        }
        if end >= 2 {
            assert(part[end - 2] == s@[end - 2]);
        }
        assert(!ends_in_nothing(part));
        assert(trailing_slashes(part) == 0);
    }
    let mut r: Vec<char> = Vec::new();
    let mut k: usize = 0;
    while k < end
        invariant
            k <= end <= s@.len(),
            r@ == s@.take(k as int),
        decreases end - k,
    {
        r.push(s[k]);
        assert(s@.take(k as int + 1) =~= s@.take(k as int).push(s@[k as int]));
        k = k + 1;
    }
    r
}

/// The characters `s[from..to]`.
fn slice_chars(s: &[char], from: usize, to: usize) -> (r: Vec<char>)
    requires
        from <= to <= s@.len(),
    ensures
        r@ == s@.subrange(from as int, to as int),
{
    let mut r: Vec<char> = Vec::new();
    let mut k: usize = from;
    while k < to
        invariant
            from <= k <= to <= s@.len(),
            r@ == s@.subrange(from as int, k as int),
        decreases to - k,
    {
        r.push(s[k]);
        assert(s@.subrange(from as int, k as int + 1) =~= s@.subrange(from as int, k as int).push(s@[k as int]));
        k = k + 1;
    }
    r
}

/// The last component of `p`.
fn last_component_chars(p: &[char]) -> (r: Vec<char>)
    ensures
        r@ == last_component(p@),
{
    let q = strip_slashes(p);
    proof {
        lemma_trailing_slashes_bound(p@);
    }
    proof {
        lemma_last_index_bound(q@, '/');
    }
    let start: usize = match find_last(q.as_slice(), '/') {
        Some(k) => {
            assert(k < q@.len());
            assert(q@.len() == q.len());
            k + 1
        },
        None => 0,
    };
    let r = slice_chars(q.as_slice(), start, q.len());
    assert(r@ =~= q@.skip(start as int));
    r
}

/// The file name of `path`, if it has one (as `Path::file_name`).
pub fn file_name(path: &str) -> (r: Option<String>)
    ensures
        r matches Some(n) ==> file_name_of(path@) == Some(n@),
        r is None ==> file_name_of(path@) is None,
{
    let p = chars_of(path);
    let n = last_component_chars(p.as_slice());
    let is_dot = n.len() == 1 && n[0] == '.';
    let is_dotdot = n.len() == 2 && n[0] == '.' && n[1] == '.';
    proof {
        if n@ == seq!['.'] {
            assert(n@[0] == '.');
        }
        if n@ == seq!['.', '.'] {
            assert(n@[0] == '.' && n@[1] == '.');
        }
        if is_dot {
            assert(n@ =~= seq!['.']);
        }
        if is_dotdot {
            assert(n@ =~= seq!['.', '.']);
        }
    }
    if n.len() == 0 || is_dot || is_dotdot {
        None
    } else {
        Some(string_from_chars(n.as_slice()))
    }
}

/// The directory part of `path` (see `parent_of`).
pub fn parent(path: &str) -> (r: Option<String>)
    ensures
        match r {
            Some(d) => parent_of(path@) == Some(d@),
            None => parent_of(path@) is None,
        },
{
    let p = chars_of(path);
    let q = strip_slashes(p.as_slice());
    proof {
        lemma_trailing_slashes_bound(p@);
        lemma_last_index_bound(q@, '/');
    }
    if q.len() == 0 {
        return None;
    }
    match find_last(q.as_slice(), '/') {
        None => Some(String::new()),
        Some(k) => {
            let head = slice_chars(q.as_slice(), 0, k);
            assert(head@ =~= q@.take(k as int));
            let d = strip_slashes(head.as_slice());
            if d.len() == 0 {
                let mut root: Vec<char> = Vec::new();
                root.push('/');
                assert(root@ =~= seq!['/']);
                Some(string_from_chars(root.as_slice()))
            } else {
                Some(string_from_chars(d.as_slice()))
            }
        },
    }
}

/// The stem and extension of a file name (see `stem_and_extension`).
pub fn split_name(name: &str) -> (r: (String, Option<String>))
    ensures
        r.0@ == stem_and_extension(name@).0,
        match r.1 {
            Some(e) => stem_and_extension(name@).1 == Some(e@),
            None => stem_and_extension(name@).1 is None,
        },
{
    let n = chars_of(name);
    let is_dotdot = n.len() == 2 && n[0] == '.' && n[1] == '.';
    proof {
        lemma_last_index_bound(n@, '.');
        if is_dotdot {
            assert(n@ =~= seq!['.', '.']);
        }
        if n@ == seq!['.', '.'] {
            assert(n@[0] == '.' && n@[1] == '.');
        }
    }
    if is_dotdot {
        return (string_from_chars(n.as_slice()), None);
    }
    match find_last(n.as_slice(), '.') {
        Some(d) => {
            if d == 0 {
                (string_from_chars(n.as_slice()), None)
            } else {
                let stem = slice_chars(n.as_slice(), 0, d);
                let ext = slice_chars(n.as_slice(), d + 1, n.len());
                assert(stem@ =~= n@.take(d as int));
                assert(ext@ =~= n@.skip(d + 1));
                (string_from_chars(stem.as_slice()), Some(string_from_chars(ext.as_slice())))
            }
        },
        None => (string_from_chars(n.as_slice()), None),
    }
}

/// `parent` joined with `name` (see `joined`).
pub fn join(parent: &str, name: &str) -> (r: String)
    ensures
        r@ == joined(parent@, name@),
{
    let d = chars_of(parent);
    let n = chars_of(name);
    if n.len() > 0 && n[0] == '/' {
        return string_from_chars(n.as_slice());
    }
    if d.len() == 0 {
        return string_from_chars(n.as_slice());
    }
    let mut out = d.clone();
    assert(out@ =~= d@);
    if d[d.len() - 1] != '/' {
        out.push('/');
    }
    push_all(&mut out, n.as_slice());
    assert(d@.last() == d@[d@.len() - 1]);
    string_from_chars(out.as_slice())
}

} // verus!
