//! The order of paths, and sorting by it.
//!
//! Paths compare component by component (as `PathBuf`'s `Ord`); on paths
//! without empty or `.` components this is the character order in which `/`
//! comes before every other character.

use vstd::prelude::*;

verus! {

/// The rank of a character in path order: `/` first, then code point order.
pub open spec fn path_rank(c: char) -> int {
    if c == '/' {
        -1
    } else {
        c as int
    }
}

/// `a` comes before `b` in path order, or equals it.
pub open spec fn path_le(a: Seq<char>, b: Seq<char>) -> bool
    decreases a.len(),
{
    if a.len() == 0 {
        true
    } else if b.len() == 0 {
        false
    } else if path_rank(a[0]) < path_rank(b[0]) {
        true
    } else if path_rank(a[0]) > path_rank(b[0]) {
        false
    } else {
        path_le(a.drop_first(), b.drop_first())
    }
}

/// The paths are in path order.
pub open spec fn paths_sorted(s: Seq<Seq<char>>) -> bool {
    forall|i: int, j: int| 0 <= i < j < s.len() ==> path_le(#[trigger] s[i], #[trigger] s[j])
}

/// The texts of a sequence of strings.
pub open spec fn texts(v: Seq<String>) -> Seq<Seq<char>> {
    v.map_values(|s: String| s@)
}

/// Path order is total.
pub proof fn lemma_path_le_total(a: Seq<char>, b: Seq<char>)
    ensures
        path_le(a, b) || path_le(b, a),
    decreases a.len(),
{
    if a.len() > 0 && b.len() > 0 && path_rank(a[0]) == path_rank(b[0]) {
        lemma_path_le_total(a.drop_first(), b.drop_first());
    }
}

/// Path order is transitive.
pub proof fn lemma_path_le_transitive(a: Seq<char>, b: Seq<char>, c: Seq<char>)
    requires
        path_le(a, b),
        path_le(b, c),
    ensures
        path_le(a, c),
    decreases a.len(),
{
    if a.len() > 0 && b.len() > 0 && c.len() > 0 && path_rank(a[0]) == path_rank(b[0]) && path_rank(b[0])
        == path_rank(c[0]) {
        lemma_path_le_transitive(a.drop_first(), b.drop_first(), c.drop_first());
    }
}

fn rank(c: char) -> (r: i64)
    ensures
        r == path_rank(c),
{
    if c == '/' {
        -1
    } else {
        (c as u32) as i64
    }
}

/// Whether `a` comes before `b` in path order, or equals it.
pub fn path_leq(a: &String, b: &String) -> (r: bool)
    ensures
        r == path_le(a@, b@),
{
    let x = crate::text::chars_of(a.as_str());
    let y = crate::text::chars_of(b.as_str());
    let mut i: usize = 0;
    assert(x@.skip(0) =~= x@);
    assert(y@.skip(0) =~= y@);
    while i < x.len() && i < y.len()
        invariant
            x@ == a@,
            y@ == b@,
            i <= x@.len(),
            i <= y@.len(),
            path_le(a@, b@) == path_le(x@.skip(i as int), y@.skip(i as int)),
        decreases x@.len() - i,
    {
        let ra = rank(x[i]);
        let rb = rank(y[i]);
        if ra < rb {
            return true;
        }
        if ra > rb {
            return false;
        }
        assert(x@.skip(i as int).drop_first() =~= x@.skip(i as int + 1));
        assert(y@.skip(i as int).drop_first() =~= y@.skip(i as int + 1));
        i = i + 1;
    }
    i >= x.len()
}

/// Sorts paths in path order (stable insertion sort).
pub fn sort_paths(v: Vec<String>) -> (r: Vec<String>)
    ensures
        paths_sorted(texts(r@)),
        texts(r@).to_multiset() == texts(v@).to_multiset(),
{
    broadcast use vstd::seq_lib::group_to_multiset_ensures;

    let mut out: Vec<String> = Vec::new();
    let mut i: usize = 0;
    assert(texts(v@).take(0) =~= Seq::<Seq<char>>::empty());
    while i < v.len()
        invariant
            i <= v@.len(),
            paths_sorted(texts(out@)),
            texts(out@).to_multiset() == texts(v@).take(i as int).to_multiset(),
        decreases v@.len() - i,
    {
        let x = v[i].clone();
        let mut pos: usize = 0;
        while pos < out.len() && path_leq(&out[pos], &x)
            invariant
                pos <= out@.len(),
                forall|k: int| 0 <= k < pos ==> path_le(#[trigger] out@[k]@, x@),
            decreases out@.len() - pos,
        {
            pos = pos + 1;
        }
        let ghost before = texts(out@);
        proof {
            if pos < out@.len() {
                lemma_path_le_total(out@[pos as int]@, x@);
            }
        }
        out.insert(pos, x);
        proof {
            let after = texts(out@);
            assert(after =~= before.insert(pos as int, v@[i as int]@));
            assert(texts(v@).take(i as int + 1) =~= texts(v@).take(i as int).push(v@[i as int]@));
            vstd::seq_lib::to_multiset_insert(before, pos as int, v@[i as int]@);
            vstd::seq_lib::to_multiset_build(texts(v@).take(i as int), v@[i as int]@);
            assert forall|a: int, b: int| 0 <= a < b < after.len() implies path_le(#[trigger] after[a], #[trigger] after[b]) by {
                if a < pos && b < pos {
                    assert(path_le(before[a], before[b]));
                } else if a < pos && b == pos {
                } else if a < pos && b > pos {
                    assert(path_le(before[a], before[b - 1]));
                } else if a == pos {
                    assert(path_le(before[pos as int], before[b - 1]) || b - 1 == pos);
                    if b - 1 > pos {
                        lemma_path_le_transitive(v@[i as int]@, before[pos as int], before[b - 1]);
                    }
                } else {
                    assert(path_le(before[a - 1], before[b - 1]));
                }
            }
        }
        i = i + 1;
    }
    assert(texts(v@).take(v@.len() as int) =~= texts(v@));
    out
}

} // verus!
