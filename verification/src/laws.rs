//! The library's laws: properties relating several operations, stated
//! over the mathematical models and proved once and for all.

use vstd::prelude::*;

use crate::diff_engine::{lemma_diff_fields, lemma_diff_then_replay, lemma_empty_diff_means_equal, no_empty_lines, spec_diff};
use crate::record::RecModel;
use crate::replay::{apply_rec, is_insert, lemma_replay_onto_concat, lemma_replay_onto_push, replay};
use crate::handler::{remove_delta, remove_model, write_delta, write_model};
use crate::store::{
    append_model, applied_model, cursor_of, ensure_model, file_view_model, file_wf, fm_index,
    has_path, lemma_fm_index_first, lemma_fm_index_not_found, lemma_fm_index_update,
    lemma_fm_index_valid, log_of, redo_model, store_wf, ts_sorted, undo_model, view_model,
    window, FileModel, StoreModel,
};
use crate::time_frame::{lemma_widening_lowers_cutoff, spec_cutoff, widens, TimeFrame};

verus! {

/// Replay fidelity: appending the delta between the materialisation of
/// an applied log and a file's current lines gives a log that
/// materialises to exactly those lines. Content must not contain empty
/// lines: the record encoding uses the empty string as its sentinel, so
/// an empty line cannot be told apart from a missing one.
pub proof fn lemma_replay_fidelity(rs: Seq<RecModel>, cur: Seq<Seq<char>>, p: Seq<char>, t: int)
    requires
        no_empty_lines(replay(rs)),
        no_empty_lines(cur),
    ensures
        replay(rs + spec_diff(replay(rs), cur, p, t)) == cur,
{
    lemma_replay_onto_concat(Seq::empty(), rs, spec_diff(replay(rs), cur, p, t));
    lemma_diff_then_replay(replay(rs), cur, p, t);
}

/// Undo/redo inverse: undoing `n` entries and redoing `n` entries
/// restores the store exactly, whenever `n` does not exceed the cursor.
pub proof fn lemma_undo_redo_inverse(m: StoreModel, p: Seq<char>, n: int)
    requires
        store_wf(m),
        has_path(m, p),
        0 <= n <= cursor_of(m, p),
    ensures
        redo_model(undo_model(m, p, n), p, n) == m,
{
    let i = fm_index(m.files, p);
    lemma_fm_index_valid(m.files, p);
    let f = m.files[i];
    assert(file_wf(f));
    let f1 = FileModel { path: f.path, entries: f.entries, cursor: f.cursor - n };
    let m1 = undo_model(m, p, n);
    assert(m1.files == m.files.update(i, f1));
    lemma_fm_index_update(m.files, p, i, f1);
    let m2 = redo_model(m1, p, n);
    let f2 = FileModel { path: f.path, entries: f.entries, cursor: f.cursor };
    assert(f2 =~= f);
    assert(m2.files =~= m.files);
    assert(m2 =~= m);
}

/// Truncation on new write: after undoing `k > 0` entries, an append
/// discards the `k` undone entries, and any further redo is a no-op.
pub proof fn lemma_truncation_on_new_write(
    m: StoreModel,
    p: Seq<char>,
    k: int,
    rs: Seq<RecModel>,
    j: int,
)
    requires
        store_wf(m),
        has_path(m, p),
        0 < k <= cursor_of(m, p),
        0 <= j,
    ensures
        log_of(append_model(undo_model(m, p, k), p, rs), p) == log_of(m, p).take(
            cursor_of(m, p) - k,
        ) + rs,
        cursor_of(append_model(undo_model(m, p, k), p, rs), p) == cursor_of(m, p) - k + rs.len(),
        redo_model(append_model(undo_model(m, p, k), p, rs), p, j) == append_model(
            undo_model(m, p, k),
            p,
            rs,
        ),
{
    let i = fm_index(m.files, p);
    lemma_fm_index_valid(m.files, p);
    let f = m.files[i];
    assert(file_wf(f));
    let f1 = FileModel { path: f.path, entries: f.entries, cursor: f.cursor - k };
    let m1 = undo_model(m, p, k);
    assert(m1.files == m.files.update(i, f1));
    lemma_fm_index_update(m.files, p, i, f1);
    let m2 = append_model(m1, p, rs);
    let f2 = FileModel {
        path: f.path,
        entries: f.entries.take(f.cursor - k) + rs,
        cursor: f.cursor - k + rs.len(),
    };
    assert(m2.files =~= m.files.update(i, f2));
    lemma_fm_index_update(m.files, p, i, f2);
    assert(log_of(m2, p) == f2.entries);
    let m3 = redo_model(m2, p, j);
    let f3 = FileModel { path: f2.path, entries: f2.entries, cursor: f2.cursor };
    assert(f3 =~= f2);
    assert(m3.files =~= m2.files);
    assert(m3 =~= m2);
}

/// Remove-then-undo restores: appending any batch of entries (such as
/// the synthetic deletions of a remove event) and then undoing exactly
/// that many entries leaves every view as it was.
pub proof fn lemma_remove_then_undo(m: StoreModel, p: Seq<char>, rs: Seq<RecModel>, now: u64)
    requires
        store_wf(m),
        has_path(m, p),
    ensures
        view_model(undo_model(append_model(m, p, rs), p, rs.len() as int), now) == view_model(
            m,
            now,
        ),
{
    let i = fm_index(m.files, p);
    lemma_fm_index_valid(m.files, p);
    let f = m.files[i];
    assert(file_wf(f));
    let f2 = FileModel {
        path: f.path,
        entries: f.entries.take(f.cursor) + rs,
        cursor: f.cursor + rs.len(),
    };
    let m2 = append_model(m, p, rs);
    assert(m2.files == m.files.update(i, f2));
    lemma_fm_index_update(m.files, p, i, f2);
    let f3 = FileModel { path: f2.path, entries: f2.entries, cursor: f.cursor };
    let m3 = undo_model(m2, p, rs.len() as int);
    assert(m3.files =~= m.files.update(i, f3));
    assert(f3.entries.take(f3.cursor) =~= f.entries.take(f.cursor));
    assert forall|x: int| 0 <= x < m.files.len() implies view_model(m3, now)[x] == view_model(
        m,
        now,
    )[x] by {
        if x == i {
            assert(file_view_model(f3, m.frame, now) == file_view_model(f, m.frame, now));
        } else {
            assert(m3.files[x] == m.files[x]);
        }
    }
    assert(view_model(m3, now) =~= view_model(m, now));
}

/// Every entry satisfies the predicate: filtering changes nothing.
proof fn lemma_filter_all(rs: Seq<RecModel>, pred: spec_fn(RecModel) -> bool)
    requires
        forall|x: int| 0 <= x < rs.len() ==> pred(#[trigger] rs[x]),
    ensures
        rs.filter(pred) == rs,
    decreases rs.len(),
{
    reveal(Seq::filter);
    if rs.len() > 0 {
        lemma_filter_all(rs.drop_last(), pred);
        assert(rs.drop_last().push(rs.last()) =~= rs);
    }
}

/// Replay fidelity at the write event itself: after a write whose
/// applied entries all lie inside the active window, materialising the
/// file's log reproduces the file's current lines exactly — whether the
/// event appended a delta or found nothing to record. Content must not
/// contain empty lines (the record encoding's sentinel).
pub proof fn lemma_write_event_fidelity(
    m: StoreModel,
    p: Seq<char>,
    cur: Seq<Seq<char>>,
    now: u64,
)
    requires
        store_wf(m),
        p.len() > 0,
        no_empty_lines(replay(applied_model(ensure_model(m, p), p, now))),
        no_empty_lines(cur),
        forall|x: int|
            0 <= x < cursor_of(ensure_model(m, p), p) ==> (#[trigger] log_of(
                ensure_model(m, p),
                p,
            )[x]).timestamp >= spec_cutoff(m.frame, now),
    ensures
        replay(applied_model(write_model(m, p, cur, now), p, now)) == cur,
{
    let m1 = ensure_model(m, p);
    lemma_ensure_wf(m, p);
    let i = fm_index(m1.files, p);
    lemma_fm_index_valid(m1.files, p);
    let f = m1.files[i];
    assert(file_wf(f));
    let pred = |r: RecModel| r.timestamp >= spec_cutoff(m.frame, now) as int;
    let rs = f.entries.take(f.cursor);
    lemma_filter_all(rs, pred);
    assert(applied_model(m1, p, now) == rs);
    let prior = replay(rs);
    let d = write_delta(m, p, cur, now);
    assert(d == spec_diff(prior, cur, p, now as int));
    if d.len() == 0 {
        lemma_empty_diff_means_equal(prior, cur, p, now as int);
        assert(write_model(m, p, cur, now) == m1);
    } else {
        let m2 = append_model(m1, p, d);
        assert(write_model(m, p, cur, now) == m2);
        let nf = FileModel { path: f.path, entries: rs + d, cursor: f.cursor + d.len() };
        assert(m2.files == m1.files.update(i, nf));
        lemma_fm_index_update(m1.files, p, i, nf);
        assert(nf.entries.take(nf.cursor) =~= rs + d);
        lemma_diff_fields(prior, cur, p, now as int);
        assert forall|x: int| 0 <= x < (rs + d).len() implies pred(#[trigger] (rs + d)[x]) by {
            if x < rs.len() {
                assert((rs + d)[x] == rs[x]);
            } else {
                assert((rs + d)[x] == d[x - rs.len()]);
                assert(d[x - rs.len()].timestamp == now as int);
            }
        }
        lemma_filter_all(rs + d, pred);
        assert(applied_model(m2, p, now) == rs + d);
        lemma_replay_fidelity(rs, cur, p, now as int);
    }
}

/// Registration preserves well-formedness.
pub proof fn lemma_ensure_wf(m: StoreModel, p: Seq<char>)
    requires
        store_wf(m),
        p.len() > 0,
    ensures
        store_wf(ensure_model(m, p)),
        has_path(ensure_model(m, p), p),
{
    let m1 = ensure_model(m, p);
    if !has_path(m, p) {
        lemma_fm_index_not_found(m.files, p);
        assert forall|i: int| 0 <= i < m1.files.len() implies file_wf(#[trigger] m1.files[i]) by {
            if i < m.files.len() {
                assert(m1.files[i] == m.files[i]);
            }
        }
        lemma_fm_index_first(m1.files, p, m1.files.len() - 1);
    }
}

/// Remove-then-undo restores, at the level of the remove event itself:
/// undoing exactly as many entries as the event's synthetic deletions
/// brings every view back to what it was when the event arrived.
pub proof fn lemma_remove_event_then_undo(m: StoreModel, p: Seq<char>, now: u64)
    requires
        store_wf(m),
        p.len() > 0,
    ensures
        view_model(
            undo_model(remove_model(m, p, now), p, remove_delta(m, p, now).len() as int),
            now,
        ) == view_model(ensure_model(m, p), now),
{
    lemma_ensure_wf(m, p);
    lemma_remove_then_undo(ensure_model(m, p), p, remove_delta(m, p, now), now);
}

/// Serial ordering: two writes to distinct paths, applied one after the
/// other, each publish a view that reflects their own append; the later
/// view also still reflects the earlier mutation, and neither append
/// disturbs the other path's log.
pub proof fn lemma_serial_ordering(
    m: StoreModel,
    p1: Seq<char>,
    rs1: Seq<RecModel>,
    p2: Seq<char>,
    rs2: Seq<RecModel>,
    now: u64,
)
    requires
        store_wf(m),
        has_path(m, p1),
        has_path(m, p2),
        p1 != p2,
    ensures
// the second append leaves the first path's log exactly as its own
// append left it, so the second view still reflects the first mutation

        log_of(append_model(append_model(m, p1, rs1), p2, rs2), p1) == log_of(
            append_model(m, p1, rs1),
            p1,
        ),
        cursor_of(append_model(append_model(m, p1, rs1), p2, rs2), p1) == cursor_of(
            append_model(m, p1, rs1),
            p1,
        ),
        view_model(append_model(append_model(m, p1, rs1), p2, rs2), now)[fm_index(m.files, p1)]
            == view_model(append_model(m, p1, rs1), now)[fm_index(m.files, p1)],
        // the first append does not touch the second path's log, and the
        // second view reflects the second append of the untouched log
        log_of(append_model(m, p1, rs1), p2) == log_of(m, p2),
        cursor_of(append_model(m, p1, rs1), p2) == cursor_of(m, p2),
        log_of(append_model(append_model(m, p1, rs1), p2, rs2), p2) == log_of(m, p2).take(
            cursor_of(m, p2),
        ) + rs2,
{
    let i1 = fm_index(m.files, p1);
    let i2 = fm_index(m.files, p2);
    lemma_fm_index_valid(m.files, p1);
    lemma_fm_index_valid(m.files, p2);
    assert(i1 != i2);
    let f1 = m.files[i1];
    let nf1 = FileModel {
        path: f1.path,
        entries: f1.entries.take(f1.cursor) + rs1,
        cursor: f1.cursor + rs1.len(),
    };
    let ma = append_model(m, p1, rs1);
    assert(ma.files == m.files.update(i1, nf1));
    lemma_fm_index_update(m.files, p1, i1, nf1);
    lemma_fm_index_update(m.files, p2, i1, nf1);
    assert(ma.files[i2] == m.files[i2]);
    let f2 = ma.files[i2];
    let nf2 = FileModel {
        path: f2.path,
        entries: f2.entries.take(f2.cursor) + rs2,
        cursor: f2.cursor + rs2.len(),
    };
    let mb = append_model(ma, p2, rs2);
    assert(mb.files == ma.files.update(i2, nf2));
    lemma_fm_index_update(ma.files, p1, i2, nf2);
    lemma_fm_index_update(ma.files, p2, i2, nf2);
    assert(mb.files[i1] == ma.files[i1]);
    assert(file_view_model(mb.files[i1], mb.frame, now) == file_view_model(
        ma.files[i1],
        ma.frame,
        now,
    ));
}

/// No entry satisfies the predicate: the filtered sequence is empty.
proof fn lemma_filter_none(rs: Seq<RecModel>, pred: spec_fn(RecModel) -> bool)
    requires
        forall|x: int| 0 <= x < rs.len() ==> !pred(#[trigger] rs[x]),
    ensures
        rs.filter(pred).len() == 0,
    decreases rs.len(),
{
    reveal(Seq::filter);
    if rs.len() > 0 {
        lemma_filter_none(rs.drop_last(), pred);
    }
}

/// Time-frame monotonicity over entries: for a log ordered by
/// timestamp, the entries materialised under a narrow frame are exactly
/// a suffix of those materialised under a wider frame. Widening the
/// frame therefore never removes an entry from materialisation.
pub proof fn lemma_widening_keeps_entries(
    rs: Seq<RecModel>,
    narrow: TimeFrame,
    wide: TimeFrame,
    now: u64,
)
    requires
        ts_sorted(rs),
        widens(narrow, wide),
    ensures
        window(rs, narrow, now).len() <= window(rs, wide, now).len(),
        window(rs, wide, now).skip(
            window(rs, wide, now).len() - window(rs, narrow, now).len(),
        ) == window(rs, narrow, now),
    decreases rs.len(),
{
    broadcast use Seq::lemma_filter_push;

    lemma_widening_lowers_cutoff(narrow, wide, now);
    let pn = |r: RecModel| r.timestamp >= spec_cutoff(narrow, now) as int;
    let pw = |r: RecModel| r.timestamp >= spec_cutoff(wide, now) as int;
    if rs.len() == 0 {
        assert(window(rs, narrow, now) =~= Seq::<RecModel>::empty());
        assert(window(rs, wide, now) =~= Seq::<RecModel>::empty());
        reveal(Seq::filter);
    } else {
        let d = rs.drop_last();
        let l = rs.last();
        assert(rs =~= d.push(l));
        assert(ts_sorted(d)) by {
            assert(forall|x: int| 0 <= x < d.len() ==> d[x] == rs[x]);
        }
        lemma_widening_keeps_entries(d, narrow, wide, now);
        let wnd = window(d, narrow, now);
        let wwd = window(d, wide, now);
        let k = wwd.len() - wnd.len();
        if pn(l) {
            assert(pw(l));
            assert(window(rs, narrow, now) == wnd.push(l));
            assert(window(rs, wide, now) == wwd.push(l));
            assert(wwd.push(l).skip(k) =~= wwd.skip(k).push(l));
        } else if pw(l) {
            // everything earlier is at least as old, so the narrow
            // window is empty
            assert forall|x: int| 0 <= x < d.len() implies !pn(#[trigger] d[x]) by {
                assert(rs[x].timestamp <= rs[rs.len() - 1].timestamp);
            }
            lemma_filter_none(d, pn);
            assert(window(rs, narrow, now) == wnd);
            assert(window(rs, wide, now) == wwd.push(l));
            assert(wnd =~= Seq::<RecModel>::empty());
            assert(wwd.push(l).skip(wwd.push(l).len() as int) =~= Seq::<RecModel>::empty());
        } else {
            assert(window(rs, narrow, now) == wnd);
            assert(window(rs, wide, now) == wwd);
        }
    }
}

proof fn lemma_seq_insert_to_multiset(s: Seq<Seq<char>>, pos: int, a: Seq<char>)
    requires
        0 <= pos <= s.len(),
    ensures
        s.insert(pos, a).to_multiset() == s.to_multiset().insert(a),
{
    broadcast use vstd::seq_lib::group_to_multiset_ensures;
    broadcast use vstd::multiset::group_multiset_axioms;
    broadcast use vstd::multiset::group_multiset_properties;

    let t = s.insert(pos, a);
    assert(t.remove(pos) =~= s);
    assert(t[pos] == a);
    assert(s.to_multiset() =~= t.to_multiset().remove(a));
    assert(t.contains(a));
    assert(t.to_multiset().count(a) > 0);
    assert(t.to_multiset() =~= s.to_multiset().insert(a));
}

/// Applying an insertion record adds exactly its `after` line to the
/// content, wherever the clamped position lands.
proof fn lemma_apply_insert_multiset(lines: Seq<Seq<char>>, r: RecModel)
    requires
        is_insert(r),
    ensures
        apply_rec(lines, r).to_multiset() == lines.to_multiset().insert(r.after),
{
    broadcast use vstd::seq_lib::group_to_multiset_ensures;

    let i = r.line_number;
    let n = lines.len() as int;
    if 1 <= i <= n + 1 {
        lemma_seq_insert_to_multiset(lines, i - 1, r.after);
    } else {
        assert(lines.push(r.after).to_multiset() =~= lines.to_multiset().insert(r.after));
    }
}

/// Time-frame monotonicity over lines, for logs of insertions only:
/// widening the frame never removes a line from the view — every line
/// under the narrow frame is still there, with at least the same
/// multiplicity, under the wide one. (For logs that also delete or
/// replace by position this fails: an old entry admitted by the wider
/// frame shifts the positions later deletions act on, which can delete
/// a line the narrow view keeps.)
pub proof fn lemma_widening_keeps_inserted_lines(
    rs: Seq<RecModel>,
    narrow: TimeFrame,
    wide: TimeFrame,
    now: u64,
)
    requires
        widens(narrow, wide),
        forall|i: int| 0 <= i < rs.len() ==> is_insert(#[trigger] rs[i]),
    ensures
        replay(window(rs, narrow, now)).to_multiset().subset_of(
            replay(window(rs, wide, now)).to_multiset(),
        ),
    decreases rs.len(),
{
    broadcast use Seq::lemma_filter_push;
    broadcast use vstd::seq_lib::group_to_multiset_ensures;
    broadcast use vstd::multiset::group_multiset_axioms;
    broadcast use vstd::multiset::group_multiset_properties;

    lemma_widening_lowers_cutoff(narrow, wide, now);
    let pn = |r: RecModel| r.timestamp >= spec_cutoff(narrow, now) as int;
    let pw = |r: RecModel| r.timestamp >= spec_cutoff(wide, now) as int;
    if rs.len() == 0 {
        reveal(Seq::filter);
        assert(window(rs, narrow, now) =~= Seq::<RecModel>::empty());
        assert(window(rs, wide, now) =~= Seq::<RecModel>::empty());
    } else {
        let d = rs.drop_last();
        let l = rs.last();
        assert(rs =~= d.push(l));
        assert(forall|i: int| 0 <= i < d.len() ==> #[trigger] d[i] == rs[i]);
        lemma_widening_keeps_inserted_lines(d, narrow, wide, now);
        let wnd = window(d, narrow, now);
        let wwd = window(d, wide, now);
        let an = replay(wnd).to_multiset();
        let aw = replay(wwd).to_multiset();
        assert(is_insert(l));
        if pn(l) {
            assert(pw(l));
            lemma_replay_onto_push(Seq::empty(), wnd, l);
            lemma_replay_onto_push(Seq::empty(), wwd, l);
            lemma_apply_insert_multiset(replay(wnd), l);
            lemma_apply_insert_multiset(replay(wwd), l);
            assert forall|v: Seq<char>|
                #[trigger] an.insert(l.after).count(v) <= aw.insert(l.after).count(v) by {
                assert(an.count(v) <= aw.count(v));
            }
        } else if pw(l) {
            lemma_replay_onto_push(Seq::empty(), wwd, l);
            lemma_apply_insert_multiset(replay(wwd), l);
            assert forall|v: Seq<char>| #[trigger] an.count(v) <= aw.insert(l.after).count(
                v,
            ) by {
                assert(an.count(v) <= aw.count(v));
            }
        } else {
        }
    }
}

} // verus!
