//! Fitting target names: truncation to the filename limit and
//! disambiguation against existing paths.

use vstd::prelude::*;
use crate::host::{asked_since, extends, lemma_asked_none, lemma_asked_push, Host, HostCall, Session};
use crate::path::{file_name, file_name_of, join, joined, parent, parent_of, split_name, stem_and_extension};
use crate::text::{chars_of, decimal, decimal_chars, push_all, string_from_chars, utf8_len, utf8_len_capped, utf8_width, char_width};

verus! {

/// Maximum filename length in bytes, a conservative limit across systems:
/// Linux (ext4/XFS/Btrfs) allows 255 bytes per component, macOS (APFS) 255
/// characters and Windows (NTFS) 255 UTF-16 code units.
pub const MAX_FILENAME_BYTES: usize = 255;

/// Bytes left for the stem of a name with extension `ext`: the limit minus
/// the extension and its dot (negative when the extension alone is too long).
pub open spec fn stem_room(ext: Seq<char>) -> int {
    255 - utf8_len(ext) - (if ext.len() == 0 { 0int } else { 1int })
}

/// How many leading characters of `s` fit, whole, within `avail` bytes.
pub open spec fn kept_chars(s: Seq<char>, avail: int) -> nat
    decreases s.len(),
{
    if s.len() == 0 || utf8_width(s[0]) > avail {
        0
    } else {
        1 + kept_chars(s.drop_first(), avail - utf8_width(s[0]))
    }
}

/// The stem fitted to the filename limit: unchanged when stem, dot and
/// extension fit in 255 bytes; otherwise the longest run of whole leading
/// characters that leaves room for the `..` marker, followed by `..`.
pub open spec fn truncated_stem(stem: Seq<char>, ext: Seq<char>) -> Seq<char> {
    let room = stem_room(ext);
    if utf8_len(stem) <= room {
        stem
    } else {
        stem.take(kept_chars(stem, room - 2) as int) + seq!['.', '.']
    }
}

proof fn lemma_kept_chars_bound(s: Seq<char>, avail: int)
    ensures
        kept_chars(s, avail) <= s.len(),
        avail <= 0 ==> kept_chars(s, avail) == 0,
    decreases s.len(),
{
    if s.len() > 0 && utf8_width(s[0]) <= avail {
        lemma_kept_chars_bound(s.drop_first(), avail - utf8_width(s[0]));
    }
}

/// Truncates a filename stem so that the name fits within the limit while
/// the extension is kept in full: a stem that fits is returned unchanged;
/// otherwise it is cut between characters and marked by `..`.
pub fn truncate_stem(stem: &str, ext: &str) -> (r: String)
    ensures
        r@ == truncated_stem(stem@, ext@),
{
    let s = chars_of(stem);
    let e = chars_of(ext);
    let ext_bytes = utf8_len_capped(e.as_slice(), 256);
    let dot_byte: usize = if e.len() == 0 { 0 } else { 1 };
    let used = ext_bytes + dot_byte;
    let stem_bytes = utf8_len_capped(s.as_slice(), 256);
    if used <= MAX_FILENAME_BYTES && stem_bytes <= MAX_FILENAME_BYTES - used {
        return string_from_chars(s.as_slice());
    }
    assert(utf8_len(stem@) > stem_room(ext@));
    let avail: usize = if used + 2 >= MAX_FILENAME_BYTES { 0 } else { MAX_FILENAME_BYTES - used - 2 };
    proof {
        lemma_kept_chars_bound(s@, stem_room(ext@) - 2);
        lemma_kept_chars_bound(s@, 0);
        assert(kept_chars(s@, stem_room(ext@) - 2) == kept_chars(s@, avail as int));
    }
    let mut i: usize = 0;
    let mut pos: usize = 0;
    assert(s@.skip(0) =~= s@);
    while i < s.len() && pos + char_width(s[i]) <= avail
        invariant
            i <= s@.len(),
            pos <= avail,
            avail <= 255,
            kept_chars(s@, avail as int) == i + kept_chars(s@.skip(i as int), avail - pos),
        decreases s@.len() - i,
    {
        let ghost rest = s@.skip(i as int);
        assert(rest.drop_first() =~= s@.skip(i as int + 1));
        pos = pos + char_width(s[i]);
        i = i + 1;
    }
    proof {
        lemma_kept_chars_bound(s@, avail as int);
        if i < s@.len() {
            assert(s@.skip(i as int)[0] == s@[i as int]);
            assert(kept_chars(s@.skip(i as int), avail - pos) == 0);
        } else {
            assert(s@.skip(i as int).len() == 0);
        }
    }
    let mut out: Vec<char> = Vec::new();
    let mut k: usize = 0;
    while k < i
        invariant
            k <= i <= s@.len(),
            out@ == s@.take(k as int),
        decreases i - k,
    {
        out.push(s[k]);
        assert(s@.take(k as int + 1) =~= s@.take(k as int).push(s@[k as int]));
        k = k + 1;
    }
    out.push('.');
    out.push('.');
    assert(out@ =~= s@.take(i as int) + seq!['.', '.']);
    string_from_chars(out.as_slice())
}

/// The stem of the file name of `p` (empty without a file name).
pub open spec fn stem_of(p: Seq<char>) -> Seq<char> {
    match file_name_of(p) {
        Some(n) => stem_and_extension(n).0,
        None => Seq::<char>::empty(),
    }
}

/// The extension of the file name of `p` with its dot, or empty.
pub open spec fn dotted_extension_of(p: Seq<char>) -> Seq<char> {
    match file_name_of(p) {
        Some(n) => match stem_and_extension(n).1 {
            Some(e) => seq!['.'] + e,
            None => Seq::<char>::empty(),
        },
        None => Seq::<char>::empty(),
    }
}

/// The `i`-th alternative to `target`: `stem_i.ext` next to it.
pub open spec fn candidate(target: Seq<char>, i: nat) -> Seq<char> {
    let dir = match parent_of(target) {
        Some(d) => d,
        None => seq!['.'],
    };
    joined(dir, stem_of(target) + seq!['_'] + decimal(i) + dotted_extension_of(target))
}

/// The `i`-th alternative to `target`.
pub fn candidate_path(target: &str, i: usize) -> (r: String)
    ensures
        r@ == candidate(target@, i as nat),
{
    let dir = match parent(target) {
        Some(d) => d,
        None => {
            let mut dot: Vec<char> = Vec::new();
            dot.push('.');
            assert(dot@ =~= seq!['.']);
            string_from_chars(dot.as_slice())
        },
    };
    let (stem, ext) = match file_name(target) {
        Some(n) => split_name(n.as_str()),
        None => (String::new(), None),
    };
    let mut name = chars_of(stem.as_str());
    name.push('_');
    push_all(&mut name, decimal_chars(i).as_slice());
    match ext {
        Some(e) => {
            name.push('.');
            push_all(&mut name, chars_of(e.as_str()).as_slice());
        },
        None => {},
    }
    let name_text = string_from_chars(name.as_slice());
    let r = join(dir.as_str(), name_text.as_str());
    proof {
        let dir_spec = match parent_of(target@) {
            Some(d) => d,
            None => seq!['.'],
        };
        assert(dir@ == dir_spec);
        assert(name_text@ =~= stem_of(target@) + seq!['_'] + decimal(i as nat) + dotted_extension_of(target@));
    }
    r
}

/// The `k`-th path disambiguation tries: the target itself, then its
/// alternatives `1`, `2`, ...
pub open spec fn probe(target: Seq<char>, k: nat) -> Seq<char> {
    if k == 0 {
        target
    } else {
        candidate(target, k)
    }
}

/// What disambiguating `target` asks and settles on: whether the target
/// exists, then whether each alternative in turn exists, stopping at the
/// first the host reports free, which is the result. Only when every
/// alternative up to `usize::MAX - 1` is reported taken is the result the
/// target itself.
pub open spec fn disambiguation_asked(target: Seq<char>, asked: Seq<HostCall>, result: Seq<char>) -> bool {
    &&& asked.len() >= 1
    &&& forall|k: int|
        0 <= k < asked.len() - 1 ==> #[trigger] asked[k] == (HostCall::Exists { path: probe(target, k as nat), answer: true })
    &&& asked.last() matches HostCall::Exists { path, answer } && path == probe(target, (asked.len() - 1) as nat)
        && if answer {
        result == target && asked.len() == usize::MAX
    } else {
        result == path
    }
}

/// Disambiguates `target` by appending `_1`, `_2`, ... to its stem while
/// the host reports the path as existing; `target` itself when it does not
/// exist (see `disambiguation_asked`).
pub fn disambiguate<H: Host>(target: &str, io: &mut Session<H>) -> (r: String)
    ensures
        extends(old(io)@, final(io)@),
        disambiguation_asked(target@, asked_since(old(io)@, final(io)@), r@),
{
    let ghost start = io@;
    proof {
        lemma_asked_none(start);
    }
    let taken = io.path_exists(target);
    proof {
        lemma_asked_push(start, start, HostCall::Exists { path: target@, answer: taken });
    }
    if !taken {
        return target.to_owned();
    }
    assert(asked_since(start, io@)[0] == (HostCall::Exists { path: probe(target@, 0), answer: true }));
    let mut i: usize = 1;
    while i < usize::MAX
        invariant
            1 <= i,
            start == old(io)@,
            extends(start, io@),
            asked_since(start, io@).len() == i,
            forall|k: int|
                0 <= k < i ==> #[trigger] asked_since(start, io@)[k] == (HostCall::Exists {
                    path: probe(target@, k as nat),
                    answer: true,
                }),
        decreases usize::MAX - i,
    {
        let c = candidate_path(target, i);
        let ghost before = io@;
        let taken = io.path_exists(c.as_str());
        proof {
            lemma_asked_push(start, before, HostCall::Exists { path: c@, answer: taken });
        }
        if !taken {
            assert(asked_since(start, io@).last() == (HostCall::Exists { path: probe(target@, i as nat), answer: false }));
            return c;
        }
        i = i + 1;
    }
    target.to_owned()
}

} // verus!
