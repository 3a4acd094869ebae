//! Line-level differencing between two versions of a file's content.
//!
//! The delta between a prior and a current list of lines is emitted in
//! order of increasing line number: first one replacement per differing
//! index present in both versions, then one insertion per trailing new
//! line (when the file grew) or one deletion per trailing old line (when
//! it shrank). Deletions keep the line number the line held before
//! removal. Replaying the delta on top of the prior content reproduces
//! the current content exactly, provided no line is the empty string (the
//! record encoding uses the empty string as its insertion/deletion
//! sentinel, so an empty line cannot be told apart from a missing one).

use vstd::prelude::*;

use crate::record::{recs_of, LineDifference, RecModel};
use crate::replay::{
    apply_rec, is_delete, is_insert, lemma_replay_onto_concat, lemma_replay_onto_push, replay_onto,
};

verus! {

/// A record of the delta for `path` observed at `t`.
pub open spec fn mk_rec(
    path: Seq<char>,
    t: int,
    line: int,
    before: Seq<char>,
    after: Seq<char>,
) -> RecModel {
    RecModel { path: path, line_number: line, before: before, after: after, timestamp: t }
}

/// Replacement records for the first `j` line indices present in both
/// versions, in increasing line order; equal pairs emit nothing.
pub open spec fn mod_recs(
    old: Seq<Seq<char>>,
    new: Seq<Seq<char>>,
    path: Seq<char>,
    t: int,
    j: int,
) -> Seq<RecModel>
    decreases j,
{
    if j <= 0 {
        Seq::empty()
    } else if old[j - 1] == new[j - 1] {
        mod_recs(old, new, path, t, j - 1)
    } else {
        mod_recs(old, new, path, t, j - 1).push(mk_rec(path, t, j, old[j - 1], new[j - 1]))
    }
}

/// Insertion records for new trailing lines with indices in `[o, k)`,
/// in increasing line order.
pub open spec fn insert_recs(
    new: Seq<Seq<char>>,
    path: Seq<char>,
    t: int,
    o: int,
    k: int,
) -> Seq<RecModel>
    decreases k - o,
{
    if k <= o {
        Seq::empty()
    } else {
        insert_recs(new, path, t, o, k - 1).push(
            mk_rec(path, t, k, Seq::empty(), new[k - 1]),
        )
    }
}

/// Deletion records for old trailing lines with indices in `[n, k)`,
/// in increasing line order.
pub open spec fn delete_recs(
    old: Seq<Seq<char>>,
    path: Seq<char>,
    t: int,
    n: int,
    k: int,
) -> Seq<RecModel>
    decreases k - n,
{
    if k <= n {
        Seq::empty()
    } else {
        delete_recs(old, path, t, n, k - 1).push(
            mk_rec(path, t, k, old[k - 1], Seq::empty()),
        )
    }
}

/// The full delta between `old` and `new`.
pub open spec fn spec_diff(
    old: Seq<Seq<char>>,
    new: Seq<Seq<char>>,
    path: Seq<char>,
    t: int,
) -> Seq<RecModel> {
    let o = old.len() as int;
    let n = new.len() as int;
    let m = if o <= n { o } else { n };
    if n >= o {
        mod_recs(old, new, path, t, m) + insert_recs(new, path, t, o, n)
    } else {
        mod_recs(old, new, path, t, m) + delete_recs(old, path, t, n, o)
    }
}

/// No line of `s` is the empty string.
pub open spec fn no_empty_lines(s: Seq<Seq<char>>) -> bool {
    forall|i: int| 0 <= i < s.len() ==> (#[trigger] s[i]).len() > 0
}

/// `old` with the first `j` positions overwritten by `new` where both
/// versions have a line.
pub open spec fn merge_prefix(old: Seq<Seq<char>>, new: Seq<Seq<char>>, j: int) -> Seq<
    Seq<char>,
> {
    Seq::new(old.len(), |i: int| if i < j && i < new.len() { new[i] } else { old[i] })
}

proof fn lemma_mod_recs_replay(
    old: Seq<Seq<char>>,
    new: Seq<Seq<char>>,
    path: Seq<char>,
    t: int,
    j: int,
)
    requires
        0 <= j <= old.len(),
        j <= new.len(),
        forall|i: int| 0 <= i < j ==> (#[trigger] old[i]).len() > 0,
        forall|i: int| 0 <= i < j ==> (#[trigger] new[i]).len() > 0,
    ensures
        replay_onto(old, mod_recs(old, new, path, t, j)) == merge_prefix(old, new, j),
    decreases j,
{
    if j == 0 {
        assert(merge_prefix(old, new, 0) =~= old);
    } else {
        lemma_mod_recs_replay(old, new, path, t, j - 1);
        if old[j - 1] == new[j - 1] {
            assert(merge_prefix(old, new, j) =~= merge_prefix(old, new, j - 1));
        } else {
            let r = mk_rec(path, t, j, old[j - 1], new[j - 1]);
            lemma_replay_onto_push(old, mod_recs(old, new, path, t, j - 1), r);
            assert(!is_insert(r));
            assert(!is_delete(r));
            assert(apply_rec(merge_prefix(old, new, j - 1), r) =~= merge_prefix(old, new, j));
        }
    }
}

proof fn lemma_insert_recs_replay(new: Seq<Seq<char>>, path: Seq<char>, t: int, o: int, k: int)
    requires
        0 <= o <= k <= new.len(),
    ensures
        replay_onto(new.take(o), insert_recs(new, path, t, o, k)) == new.take(k),
    decreases k - o,
{
    if k == o {
    } else {
        lemma_insert_recs_replay(new, path, t, o, k - 1);
        let r = mk_rec(path, t, k, Seq::empty(), new[k - 1]);
        lemma_replay_onto_push(new.take(o), insert_recs(new, path, t, o, k - 1), r);
        assert(is_insert(r));
        assert(apply_rec(new.take(k - 1), r) =~= new.take(k));
    }
}

proof fn lemma_delete_recs_replay(
    old: Seq<Seq<char>>,
    new: Seq<Seq<char>>,
    path: Seq<char>,
    t: int,
    k: int,
)
    requires
        0 <= new.len() <= k <= old.len(),
        forall|i: int| new.len() <= i < old.len() ==> (#[trigger] old[i]).len() > 0,
    ensures
        replay_onto(new + old.skip(new.len() as int), delete_recs(old, path, t, new.len() as int, k)).len()
            == old.len() - (k - new.len()),
        replay_onto(new + old.skip(new.len() as int), delete_recs(old, path, t, new.len() as int, k)).take(new.len() as int)
            == new,
    decreases k - new.len(),
{
    let n = new.len() as int;
    let o = old.len() as int;
    let base = new + old.skip(n);
    if k == n {
        assert(base.take(n) =~= new);
    } else {
        lemma_delete_recs_replay(old, new, path, t, k - 1);
        let prev = replay_onto(base, delete_recs(old, path, t, n, k - 1));
        let r = mk_rec(path, t, k, old[k - 1], Seq::empty());
        lemma_replay_onto_push(base, delete_recs(old, path, t, n, k - 1), r);
        assert(!is_insert(r));
        assert(is_delete(r));
        let len = prev.len() as int;
        assert(len == o - (k - 1 - n));
        assert(len >= n + 1);
        let cur = apply_rec(prev, r);
        let pos: int = if 1 <= k <= len {
            k - 1
        } else {
            len - 1
        };
        assert(cur == prev.remove(pos));
        assert(pos >= n);
        assert(cur.take(n) =~= prev.take(n));
    }
}

/// Replay fidelity over raw content: applying the delta between `old`
/// and `new` on top of `old` reproduces `new` exactly, for content
/// without empty lines.
pub proof fn lemma_diff_then_replay(
    old: Seq<Seq<char>>,
    new: Seq<Seq<char>>,
    path: Seq<char>,
    t: int,
)
    requires
        no_empty_lines(old),
        no_empty_lines(new),
    ensures
        replay_onto(old, spec_diff(old, new, path, t)) == new,
{
    let o = old.len() as int;
    let n = new.len() as int;
    let m = if o <= n { o } else { n };
    lemma_mod_recs_replay(old, new, path, t, m);
    if n >= o {
        lemma_replay_onto_concat(old, mod_recs(old, new, path, t, m), insert_recs(new, path, t, o, n));
        assert(merge_prefix(old, new, m) =~= new.take(o));
        lemma_insert_recs_replay(new, path, t, o, n);
        assert(new.take(n) =~= new);
    } else {
        lemma_replay_onto_concat(old, mod_recs(old, new, path, t, m), delete_recs(old, path, t, n, o));
        assert(merge_prefix(old, new, m) =~= new + old.skip(n));
        lemma_delete_recs_replay(old, new, path, t, o);
        let s = replay_onto(new + old.skip(n), delete_recs(old, path, t, n, o));
        assert(s.len() == n);
        assert(s =~= s.take(n));
    }
}

proof fn lemma_mod_recs_fields(
    old: Seq<Seq<char>>,
    new: Seq<Seq<char>>,
    path: Seq<char>,
    t: int,
    j: int,
)
    ensures
        forall|x: int|
            0 <= x < mod_recs(old, new, path, t, j).len() ==> {
                let r = #[trigger] mod_recs(old, new, path, t, j)[x];
                r.path == path && r.timestamp == t && 1 <= r.line_number <= j
            },
    decreases j,
{
    if j > 0 {
        lemma_mod_recs_fields(old, new, path, t, j - 1);
        let prev = mod_recs(old, new, path, t, j - 1);
        let cur = mod_recs(old, new, path, t, j);
        assert forall|x: int| 0 <= x < cur.len() implies {
            let r = #[trigger] cur[x];
            r.path == path && r.timestamp == t && 1 <= r.line_number <= j
        } by {
            if old[j - 1] == new[j - 1] {
                assert(cur[x] == prev[x]);
            } else if x < prev.len() {
                assert(cur[x] == prev[x]);
            } else {
                assert(cur[x] == mk_rec(path, t, j, old[j - 1], new[j - 1]));
            }
        }
    }
}

proof fn lemma_insert_recs_fields(new: Seq<Seq<char>>, path: Seq<char>, t: int, o: int, k: int)
    ensures
        forall|x: int|
            0 <= x < insert_recs(new, path, t, o, k).len() ==> {
                let r = #[trigger] insert_recs(new, path, t, o, k)[x];
                r.path == path && r.timestamp == t && o + 1 <= r.line_number <= k
            },
    decreases k - o,
{
    if k > o {
        lemma_insert_recs_fields(new, path, t, o, k - 1);
        let prev = insert_recs(new, path, t, o, k - 1);
        let cur = insert_recs(new, path, t, o, k);
        assert forall|x: int| 0 <= x < cur.len() implies {
            let r = #[trigger] cur[x];
            r.path == path && r.timestamp == t && o + 1 <= r.line_number <= k
        } by {
            if x < prev.len() {
                assert(cur[x] == prev[x]);
            } else {
                assert(cur[x] == mk_rec(path, t, k, Seq::empty(), new[k - 1]));
            }
        }
    }
}

proof fn lemma_delete_recs_fields(old: Seq<Seq<char>>, path: Seq<char>, t: int, n: int, k: int)
    ensures
        forall|x: int|
            0 <= x < delete_recs(old, path, t, n, k).len() ==> {
                let r = #[trigger] delete_recs(old, path, t, n, k)[x];
                r.path == path && r.timestamp == t && n + 1 <= r.line_number <= k
            },
    decreases k - n,
{
    if k > n {
        lemma_delete_recs_fields(old, path, t, n, k - 1);
        let prev = delete_recs(old, path, t, n, k - 1);
        let cur = delete_recs(old, path, t, n, k);
        assert forall|x: int| 0 <= x < cur.len() implies {
            let r = #[trigger] cur[x];
            r.path == path && r.timestamp == t && n + 1 <= r.line_number <= k
        } by {
            if x < prev.len() {
                assert(cur[x] == prev[x]);
            } else {
                assert(cur[x] == mk_rec(path, t, k, old[k - 1], Seq::empty()));
            }
        }
    }
}

/// Every record of a delta carries the path and the timestamp it was
/// computed for, and a line number of at least one.
pub proof fn lemma_diff_fields(old: Seq<Seq<char>>, new: Seq<Seq<char>>, path: Seq<char>, t: int)
    ensures
        forall|x: int|
            0 <= x < spec_diff(old, new, path, t).len() ==> {
                let r = #[trigger] spec_diff(old, new, path, t)[x];
                r.path == path && r.timestamp == t && r.line_number >= 1
            },
{
    let o = old.len() as int;
    let n = new.len() as int;
    let m = if o <= n { o } else { n };
    lemma_mod_recs_fields(old, new, path, t, m);
    lemma_insert_recs_fields(new, path, t, o, n);
    lemma_delete_recs_fields(old, path, t, n, o);
}

proof fn lemma_insert_recs_len(new: Seq<Seq<char>>, path: Seq<char>, t: int, o: int, k: int)
    requires
        o <= k,
    ensures
        insert_recs(new, path, t, o, k).len() == k - o,
    decreases k - o,
{
    if k > o {
        lemma_insert_recs_len(new, path, t, o, k - 1);
    }
}

proof fn lemma_delete_recs_len(old: Seq<Seq<char>>, path: Seq<char>, t: int, n: int, k: int)
    requires
        n <= k,
    ensures
        delete_recs(old, path, t, n, k).len() == k - n,
    decreases k - n,
{
    if k > n {
        lemma_delete_recs_len(old, path, t, n, k - 1);
    }
}

proof fn lemma_mod_recs_empty(
    old: Seq<Seq<char>>,
    new: Seq<Seq<char>>,
    path: Seq<char>,
    t: int,
    j: int,
)
    requires
        mod_recs(old, new, path, t, j).len() == 0,
    ensures
        forall|x: int| 0 <= x < j ==> old[x] == new[x],
    decreases j,
{
    if j > 0 {
        assert(old[j - 1] == new[j - 1]);
        lemma_mod_recs_empty(old, new, path, t, j - 1);
    }
}

/// An empty delta means the two versions are identical.
pub proof fn lemma_empty_diff_means_equal(
    old: Seq<Seq<char>>,
    new: Seq<Seq<char>>,
    path: Seq<char>,
    t: int,
)
    requires
        spec_diff(old, new, path, t).len() == 0,
    ensures
        old == new,
{
    let o = old.len() as int;
    let n = new.len() as int;
    let m = if o <= n { o } else { n };
    lemma_insert_recs_len(new, path, t, o, n);
    lemma_delete_recs_len(old, path, t, n, o);
    assert(o == n);
    lemma_mod_recs_empty(old, new, path, t, m);
    assert(old =~= new);
}

/// Compute the delta between the prior lines and the current lines of
/// `path`, observed at time `now`.
pub fn find_diff(path: &String, prior: &Vec<String>, current: &Vec<String>, now: u64) -> (delta:
    Vec<LineDifference>)
    ensures
        recs_of(delta@) == spec_diff(prior.deep_view(), current.deep_view(), path@, now as int),
{
    let ghost oldv = prior.deep_view();
    let ghost newv = current.deep_view();
    let o = prior.len();
    let n = current.len();
    let m = if o <= n { o } else { n };
    let mut delta: Vec<LineDifference> = Vec::new();
    proof {
        assert(recs_of(delta@) =~= mod_recs(oldv, newv, path@, now as int, 0));
    }
    let mut j: usize = 0;
    while j < m
        invariant
            j <= m,
            m == if oldv.len() <= newv.len() { oldv.len() } else { newv.len() },
            oldv == prior.deep_view(),
            newv == current.deep_view(),
            recs_of(delta@) == mod_recs(oldv, newv, path@, now as int, j as int),
        decreases m - j,
    {
        if !(prior[j] == current[j]) {
            let rec = LineDifference::new(
                path.clone(),
                j + 1,
                prior[j].clone(),
                current[j].clone(),
                now,
            );
            delta.push(rec);
        }
        proof {
            assert(oldv[j as int] == prior@[j as int]@);
            assert(newv[j as int] == current@[j as int]@);
            if oldv[j as int] == newv[j as int] {
                assert(recs_of(delta@) =~= mod_recs(oldv, newv, path@, now as int, j + 1));
            } else {
                assert(recs_of(delta@) =~= mod_recs(oldv, newv, path@, now as int, j + 1));
            }
        }
        j = j + 1;
    }
    if n >= o {
        let mut k: usize = o;
        proof {
            assert(recs_of(delta@) =~= mod_recs(oldv, newv, path@, now as int, m as int)
                + insert_recs(newv, path@, now as int, o as int, o as int));
        }
        while k < n
            invariant
                o <= k <= n,
                n == newv.len(),
                o == oldv.len(),
                o <= n,
                m == o,
                oldv == prior.deep_view(),
                newv == current.deep_view(),
                recs_of(delta@) == mod_recs(oldv, newv, path@, now as int, m as int)
                    + insert_recs(newv, path@, now as int, o as int, k as int),
            decreases n - k,
        {
            let ghost pre = delta@;
            let rec = LineDifference::new(path.clone(), k + 1, String::new(), current[k].clone(), now);
            proof {
                assert(newv[k as int] == current@[k as int]@);
            }
            delta.push(rec);
            proof {
                let r = mk_rec(path@, now as int, k + 1, Seq::empty(), newv[k as int]);
                assert(rec@ == r);
                assert(recs_of(delta@) =~= recs_of(pre).push(r));
                assert(insert_recs(newv, path@, now as int, o as int, k + 1)
                    == insert_recs(newv, path@, now as int, o as int, k as int).push(r));
                assert(recs_of(delta@) =~= mod_recs(oldv, newv, path@, now as int, m as int)
                    + insert_recs(newv, path@, now as int, o as int, k + 1));
            }
            k = k + 1;
        }
    } else {
        let mut k: usize = n;
        proof {
            assert(recs_of(delta@) =~= mod_recs(oldv, newv, path@, now as int, m as int)
                + delete_recs(oldv, path@, now as int, n as int, n as int));
        }
        while k < o
            invariant
                n <= k <= o,
                n == newv.len(),
                o == oldv.len(),
                n < o,
                m == n,
                oldv == prior.deep_view(),
                newv == current.deep_view(),
                recs_of(delta@) == mod_recs(oldv, newv, path@, now as int, m as int)
                    + delete_recs(oldv, path@, now as int, n as int, k as int),
            decreases o - k,
        {
            let ghost pre = delta@;
            let rec = LineDifference::new(path.clone(), k + 1, prior[k].clone(), String::new(), now);
            proof {
                assert(oldv[k as int] == prior@[k as int]@);
            }
            delta.push(rec);
            proof {
                let r = mk_rec(path@, now as int, k + 1, oldv[k as int], Seq::empty());
                assert(rec@ == r);
                assert(recs_of(delta@) =~= recs_of(pre).push(r));
                assert(delete_recs(oldv, path@, now as int, n as int, k + 1)
                    == delete_recs(oldv, path@, now as int, n as int, k as int).push(r));
                assert(recs_of(delta@) =~= mod_recs(oldv, newv, path@, now as int, m as int)
                    + delete_recs(oldv, path@, now as int, n as int, k + 1));
            }
            k = k + 1;
        }
    }
    delta
}

} // verus!
