//! Replaying change records over file content.
//!
//! Content is an ordered list of lines. Applying a record inserts,
//! deletes or replaces one line; out-of-range line numbers are clamped to
//! the trailing position (append for insert and replace, removal of the
//! last line for delete, a no-op on empty content).

use vstd::prelude::*;

use crate::record::{recs_of, LineDifference, RecModel};

verus! {

/// A record with an empty `before` inserts a line.
pub open spec fn is_insert(r: RecModel) -> bool {
    r.before.len() == 0
}

/// A record with a non-empty `before` and an empty `after` deletes a line.
pub open spec fn is_delete(r: RecModel) -> bool {
    !is_insert(r) && r.after.len() == 0
}

/// A record with both fields non-empty replaces a line.
pub open spec fn is_replace(r: RecModel) -> bool {
    !is_insert(r) && !is_delete(r)
}

/// The content after applying one record.
pub open spec fn apply_rec(lines: Seq<Seq<char>>, r: RecModel) -> Seq<Seq<char>> {
    let i = r.line_number;
    let n = lines.len() as int;
    if is_insert(r) {
        if 1 <= i <= n + 1 {
            lines.insert(i - 1, r.after)
        } else {
            lines.push(r.after)
        }
    } else if is_delete(r) {
        if n == 0 {
            lines
        } else if 1 <= i <= n {
            lines.remove(i - 1)
        } else {
            lines.remove(n - 1)
        }
    } else {
        if 1 <= i <= n {
            lines.update(i - 1, r.after)
        } else {
            lines.push(r.after)
        }
    }
}

/// The content after applying a sequence of records, in order, on top of
/// `base`.
pub open spec fn replay_onto(base: Seq<Seq<char>>, rs: Seq<RecModel>) -> Seq<Seq<char>>
    decreases rs.len(),
{
    if rs.len() == 0 {
        base
    } else {
        apply_rec(replay_onto(base, rs.drop_last()), rs.last())
    }
}

/// The content after replaying records from the empty file.
pub open spec fn replay(rs: Seq<RecModel>) -> Seq<Seq<char>> {
    replay_onto(Seq::empty(), rs)
}

/// The record's line number falls outside content of `n` lines, so
/// applying it had to clamp: a trailing append for an insertion or a
/// replacement, a trailing removal for a deletion, a no-op on empty
/// content.
pub open spec fn is_degraded(n: int, r: RecModel) -> bool {
    let i = r.line_number;
    if is_insert(r) {
        !(1 <= i <= n + 1)
    } else if is_delete(r) {
        n == 0 || !(1 <= i <= n)
    } else {
        !(1 <= i <= n)
    }
}

/// How many records of `rs` are clamped when replayed in order from the
/// empty file.
pub open spec fn degraded_count(rs: Seq<RecModel>) -> int
    decreases rs.len(),
{
    if rs.len() == 0 {
        0
    } else {
        degraded_count(rs.drop_last()) + (if is_degraded(
            replay(rs.drop_last()).len() as int,
            rs.last(),
        ) {
            1int
        } else {
            0int
        })
    }
}

/// Replaying `r1 + r2` is replaying `r2` on top of the result of `r1`.
pub proof fn lemma_replay_onto_concat(base: Seq<Seq<char>>, r1: Seq<RecModel>, r2: Seq<RecModel>)
    ensures
        replay_onto(base, r1 + r2) == replay_onto(replay_onto(base, r1), r2),
    decreases r2.len(),
{
    if r2.len() == 0 {
        assert(r1 + r2 =~= r1);
    } else {
        assert((r1 + r2).drop_last() =~= r1 + r2.drop_last());
        assert((r1 + r2).last() == r2.last());
        lemma_replay_onto_concat(base, r1, r2.drop_last());
    }
}

/// Replaying one more record applies it on top of the previous result.
pub proof fn lemma_replay_onto_push(base: Seq<Seq<char>>, rs: Seq<RecModel>, r: RecModel)
    ensures
        replay_onto(base, rs.push(r)) == apply_rec(replay_onto(base, rs), r),
{
    assert(rs.push(r).drop_last() =~= rs);
    assert(rs.push(r).last() == r);
}

/// Apply one record to executable content.
pub fn apply_change(lines: &mut Vec<String>, d: &LineDifference)
    ensures
        final(lines).deep_view() == apply_rec(old(lines).deep_view(), d@),
{
    let ghost target = apply_rec(old(lines).deep_view(), d@);
    let i = d.line_number;
    let n = lines.len();
    if d.before.as_str().is_empty() {
        if 1 <= i && i <= n {
            lines.insert(i - 1, d.after.clone());
        } else {
            lines.push(d.after.clone());
        }
        proof {
            if 1 <= d@.line_number <= n + 1 {
                assert(lines.deep_view() =~= old(lines).deep_view().insert(
                    d@.line_number - 1,
                    d@.after,
                ));
            } else {
                assert(lines.deep_view() =~= old(lines).deep_view().push(d@.after));
            }
        }
    } else if d.after.as_str().is_empty() {
        if n == 0 {
            // nothing to delete
        } else if 1 <= i && i <= n {
            lines.remove(i - 1);
            proof {
                assert(lines.deep_view() =~= old(lines).deep_view().remove(d@.line_number - 1));
            }
        } else {
            lines.remove(n - 1);
            proof {
                assert(lines.deep_view() =~= old(lines).deep_view().remove(
                    old(lines).deep_view().len() - 1,
                ));
            }
        }
    } else {
        if 1 <= i && i <= n {
            lines[i - 1] = d.after.clone();
            proof {
                assert(lines.deep_view() =~= old(lines).deep_view().update(
                    d@.line_number - 1,
                    d@.after,
                ));
            }
        } else {
            lines.push(d.after.clone());
            proof {
                assert(lines.deep_view() =~= old(lines).deep_view().push(d@.after));
            }
        }
    }
}

/// Materialise content by replaying a sequence of records from the empty
/// file.
pub fn materialize(changes: &Vec<LineDifference>) -> (lines: Vec<String>)
    ensures
        lines.deep_view() == replay(recs_of(changes@)),
{
    let mut lines: Vec<String> = Vec::new();
    let ghost all = recs_of(changes@);
    proof {
        assert(lines.deep_view() =~= Seq::<Seq<char>>::empty());
        assert(all.take(0) =~= Seq::<RecModel>::empty());
    }
    let mut k: usize = 0;
    while k < changes.len()
        invariant
            k <= changes.len(),
            all == recs_of(changes@),
            lines.deep_view() == replay_onto(Seq::empty(), all.take(k as int)),
        decreases changes.len() - k,
    {
        proof {
            assert(all.take(k + 1).drop_last() =~= all.take(k as int));
            assert(all.take(k + 1).last() == changes@[k as int]@);
        }
        apply_change(&mut lines, &changes[k]);
        k = k + 1;
    }
    proof {
        assert(all.take(changes@.len() as int) =~= all);
    }
    lines
}

} // verus!
