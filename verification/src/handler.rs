//! Serialising filesystem events and user actions against the store.
//!
//! The handler owns the store and drives every mutation; the surrounding
//! process feeds it one event at a time together with the current
//! wall-clock time and, for writes, the file's current lines. Each
//! mutation is followed by one published view, so views are emitted in
//! the same total order as mutations.

use vstd::prelude::*;

use crate::diff_engine::{find_diff, lemma_diff_fields, spec_diff};
use crate::record::{recs_of, FileVersion, LineDifference, RecModel};
use crate::replay::{materialize, replay};
use crate::store::{
    applied_model, append_model, cursor_of, ensure_model, fm_index, frame_model,
    lemma_fm_index_valid, log_of, opt_version_model, redo_model, store_wf, undo_model, view_model,
    Store, StoreModel,
};
use crate::time_frame::TimeFrame;

verus! {

/// A debounced filesystem event, as the watcher reports it: a write or a
/// removal of a regular file inside the watched subtree, or a watcher
/// error.
#[derive(Debug)]
pub enum FsEvent {
    Written(String),
    Removed(String),
    Error(String),
}

/// Paths carried by an event are non-empty.
pub open spec fn event_wf(e: FsEvent) -> bool {
    match e {
        FsEvent::Written(p) => p@.len() > 0,
        FsEvent::Removed(p) => p@.len() > 0,
        FsEvent::Error(_) => true,
    }
}

/// Every retained timestamp in the store is at most `t`.
pub open spec fn ts_bounded(m: StoreModel, t: int) -> bool {
    forall|i: int, x: int|
        0 <= i < m.files.len() && 0 <= x < m.files[i].entries.len()
            ==> (#[trigger] m.files[i].entries[x]).timestamp <= t
}

/// The delta a write event appends: the difference between the
/// materialised applied-and-in-window content and the file's current
/// lines.
pub open spec fn write_delta(m: StoreModel, p: Seq<char>, cur: Seq<Seq<char>>, now: u64) -> Seq<
    RecModel,
> {
    let m1 = ensure_model(m, p);
    spec_diff(replay(applied_model(m1, p, now)), cur, p, now as int)
}

/// The store after a write event: registration, then an append of the
/// delta unless it is empty.
pub open spec fn write_model(m: StoreModel, p: Seq<char>, cur: Seq<Seq<char>>, now: u64) -> StoreModel {
    let m1 = ensure_model(m, p);
    let d = write_delta(m, p, cur, now);
    if d.len() == 0 {
        m1
    } else {
        append_model(m1, p, d)
    }
}

/// The synthetic deletions a remove event appends: one per surviving
/// line, in increasing line order, each keeping the line's number and
/// text.
pub open spec fn remove_delta(m: StoreModel, p: Seq<char>, now: u64) -> Seq<RecModel> {
    let m1 = ensure_model(m, p);
    let lines = replay(applied_model(m1, p, now));
    Seq::new(
        lines.len(),
        |i: int|
            RecModel {
                path: p,
                line_number: i + 1,
                before: lines[i],
                after: Seq::empty(),
                timestamp: now as int,
            },
    )
}

/// The store after a remove event: registration, then an append of the
/// synthetic deletions.
pub open spec fn remove_model(m: StoreModel, p: Seq<char>, now: u64) -> StoreModel {
    append_model(ensure_model(m, p), p, remove_delta(m, p, now))
}

proof fn lemma_ensure_preserves_bound(m: StoreModel, p: Seq<char>, t: int)
    requires
        ts_bounded(m, t),
    ensures
        ts_bounded(ensure_model(m, p), t),
{
    let m1 = ensure_model(m, p);
    assert forall|i: int, x: int|
        0 <= i < m1.files.len() && 0 <= x < m1.files[i].entries.len()
            implies (#[trigger] m1.files[i].entries[x]).timestamp <= t by {
        if i < m.files.len() {
            assert(m1.files[i] == m.files[i]);
        }
    }
}

/// The event handler: the single owner of the store; all mutation runs
/// through it, one event at a time.
pub struct EventHandle {
    pub store: Store,
}

impl EventHandle {
    pub fn new(store: Store) -> (h: EventHandle)
        ensures
            h.store == store,
    {
        EventHandle { store }
    }

    /// The initial view snapshot, published before any event.
    pub fn init_file_versions(&self, now: u64) -> (v: Vec<Option<FileVersion>>)
        requires
            store_wf(self.store@),
        ensures
            v@.map_values(|x: Option<FileVersion>| opt_version_model(x)) == view_model(
                self.store@,
                now,
            ),
    {
        self.store.views(now)
    }

    /// The path a filesystem event names, or the watcher's error message.
    pub fn to_path(event: &FsEvent) -> (r: Result<Option<String>, String>)
        ensures
            match event {
                FsEvent::Written(p) => r matches Ok(q) && q matches Some(q) && q@ == p@,
                FsEvent::Removed(p) => r matches Ok(q) && q matches Some(q) && q@ == p@,
                FsEvent::Error(msg) => r matches Err(e) && e@ == msg@,
            },
    {
        match event {
            FsEvent::Written(p) => Ok(Some(p.clone())),
            FsEvent::Removed(p) => Ok(Some(p.clone())),
            FsEvent::Error(msg) => Err(msg.clone()),
        }
    }

    /// Whether the event is a write.
    pub fn is_modification(event: &FsEvent) -> (r: bool)
        ensures
            r == (event matches FsEvent::Written(_)),
    {
        match event {
            FsEvent::Written(_) => true,
            _ => false,
        }
    }

    /// Whether the event is a removal.
    pub fn is_removed(event: &FsEvent) -> (r: bool)
        ensures
            r == (event matches FsEvent::Removed(_)),
    {
        match event {
            FsEvent::Removed(_) => true,
            _ => false,
        }
    }

    /// A write observed at `now`: register the path, diff the current
    /// lines against the materialised prior content, and append the
    /// delta unless it is empty. A view is published exactly when an
    /// append happened.
    pub fn on_file_change(&mut self, path: &String, current_lines: &Vec<String>, now: u64) -> (r:
        Option<Vec<Option<FileVersion>>>)
        requires
            store_wf(old(self).store@),
            ts_bounded(old(self).store@, now as int),
            path@.len() > 0,
        ensures
            final(self).store@ == write_model(old(self).store@, path@, current_lines.deep_view(), now),
            store_wf(final(self).store@),
            ts_bounded(final(self).store@, now as int),
            match r {
                Some(v) => write_delta(old(self).store@, path@, current_lines.deep_view(), now).len()
                    != 0 && v@.map_values(|x: Option<FileVersion>| opt_version_model(x))
                    == view_model(final(self).store@, now),
                None => write_delta(old(self).store@, path@, current_lines.deep_view(), now).len()
                    == 0,
            },
    {
        let ghost m0 = self.store@;
        self.store.ensure_entry(path);
        let ghost m1 = self.store@;
        proof {
            lemma_ensure_preserves_bound(m0, path@, now as int);
        }
        let prior = self.store.applied_changes(path, now);
        let prior_lines = materialize(&prior);
        let delta = find_diff(path, &prior_lines, current_lines, now);
        proof {
            assert(recs_of(delta@) == write_delta(m0, path@, current_lines.deep_view(), now));
        }
        if delta.len() == 0 {
            proof {
                assert(write_delta(m0, path@, current_lines.deep_view(), now).len() == 0);
            }
            return None;
        }
        proof {
            let rs = recs_of(delta@);
            lemma_diff_fields(
                prior_lines.deep_view(),
                current_lines.deep_view(),
                path@,
                now as int,
            );
            assert forall|x: int, y: int| 0 <= x <= y < rs.len() implies (
            #[trigger] rs[x]).timestamp <= (#[trigger] rs[y]).timestamp by {
                assert(rs[x].timestamp == now as int);
                assert(rs[y].timestamp == now as int);
            }
            assert forall|x: int| 0 <= x < delta@.len() implies (#[trigger] delta@[x])@.path
                == path@ by {
                assert(delta@[x]@ == rs[x]);
            }
            lemma_fm_index_valid(m1.files, path@);
            assert forall|x: int, y: int|
                #![trigger log_of(m1, path@)[x], delta@[y]]
                0 <= x < cursor_of(m1, path@) && 0 <= y < delta@.len() implies log_of(
                m1,
                path@,
            )[x].timestamp <= delta@[y]@.timestamp by {
                let i = fm_index(m1.files, path@);
                assert(log_of(m1, path@)[x] == m1.files[i].entries[x]);
                assert(log_of(m1, path@)[x].timestamp <= now as int);
                assert(delta@[y]@ == rs[y]);
            }
        }
        self.store.append(path, &delta);
        proof {
            assert(self.store@ == write_model(m0, path@, current_lines.deep_view(), now));
            let m2 = self.store@;
            let m1f = m1.files[fm_index(m1.files, path@)];
            assert forall|i: int, x: int|
                0 <= i < m2.files.len() && 0 <= x < m2.files[i].entries.len() implies (
            #[trigger] m2.files[i].entries[x]).timestamp <= now as int by {
                let idx = fm_index(m1.files, path@);
                if i == idx {
                    if x < m1f.cursor {
                        assert(m2.files[i].entries[x] == m1f.entries.take(m1f.cursor)[x]);
                        assert(m2.files[i].entries[x] == m1f.entries[x]);
                    } else {
                        assert(m2.files[i].entries[x] == recs_of(delta@)[x - m1f.cursor]);
                    }
                } else {
                    assert(m2.files[i] == m1.files[i]);
                }
            }
        }
        Some(self.store.views(now))
    }

    /// A removal observed at `now`: append one synthetic deletion per
    /// surviving line, preserving undo-to-restore, and publish a view.
    pub fn on_file_remove(&mut self, path: &String, now: u64) -> (v: Vec<Option<FileVersion>>)
        requires
            store_wf(old(self).store@),
            ts_bounded(old(self).store@, now as int),
            path@.len() > 0,
        ensures
            final(self).store@ == remove_model(old(self).store@, path@, now),
            store_wf(final(self).store@),
            ts_bounded(final(self).store@, now as int),
            v@.map_values(|x: Option<FileVersion>| opt_version_model(x)) == view_model(
                final(self).store@,
                now,
            ),
    {
        let ghost m0 = self.store@;
        self.store.ensure_entry(path);
        let ghost m1 = self.store@;
        proof {
            lemma_ensure_preserves_bound(m0, path@, now as int);
        }
        let prior = self.store.applied_changes(path, now);
        let lines = materialize(&prior);
        let ghost dels = remove_delta(m0, path@, now);
        let mut synthetic: Vec<LineDifference> = Vec::new();
        proof {
            assert(lines.deep_view() == replay(applied_model(m1, path@, now)));
            assert(recs_of(synthetic@) =~= dels.take(0));
        }
        let mut i: usize = 0;
        while i < lines.len()
            invariant
                i <= lines@.len(),
                lines.deep_view() == replay(applied_model(m1, path@, now)),
                dels == remove_delta(m0, path@, now),
                m1 == ensure_model(m0, path@),
                dels.len() == lines@.len(),
                recs_of(synthetic@) == dels.take(i as int),
            decreases lines@.len() - i,
        {
            let ghost pre = synthetic@;
            let rec = LineDifference::new(path.clone(), i + 1, lines[i].clone(), String::new(), now);
            synthetic.push(rec);
            proof {
                assert(lines@[i as int]@ == lines.deep_view()[i as int]);
                assert(recs_of(synthetic@) =~= recs_of(pre).push(dels[i as int]));
                assert(dels.take(i + 1) =~= dels.take(i as int).push(dels[i as int]));
            }
            i = i + 1;
        }
        proof {
            assert(recs_of(synthetic@) =~= dels);
            assert forall|x: int| 0 <= x < synthetic@.len() implies (
            #[trigger] synthetic@[x])@.path == path@ by {
                assert(synthetic@[x]@ == dels[x]);
            }
            lemma_fm_index_valid(m1.files, path@);
            assert forall|x: int, y: int| 0 <= x <= y < dels.len() implies (
            #[trigger] dels[x]).timestamp <= (#[trigger] dels[y]).timestamp by {}
            assert forall|x: int, y: int|
                #![trigger log_of(m1, path@)[x], synthetic@[y]]
                0 <= x < cursor_of(m1, path@) && 0 <= y < synthetic@.len() implies log_of(
                m1,
                path@,
            )[x].timestamp <= synthetic@[y]@.timestamp by {
                let i = fm_index(m1.files, path@);
                assert(log_of(m1, path@)[x] == m1.files[i].entries[x]);
                assert(log_of(m1, path@)[x].timestamp <= now as int);
                assert(synthetic@[y]@ == dels[y]);
            }
        }
        self.store.append(path, &synthetic);
        proof {
            assert(self.store@ == remove_model(m0, path@, now));
            let m2 = self.store@;
            let m1f = m1.files[fm_index(m1.files, path@)];
            assert forall|i: int, x: int|
                0 <= i < m2.files.len() && 0 <= x < m2.files[i].entries.len() implies (
            #[trigger] m2.files[i].entries[x]).timestamp <= now as int by {
                let idx = fm_index(m1.files, path@);
                if i == idx {
                    if x < m1f.cursor {
                        assert(m2.files[i].entries[x] == m1f.entries.take(m1f.cursor)[x]);
                        assert(m2.files[i].entries[x] == m1f.entries[x]);
                    } else {
                        assert(m2.files[i].entries[x] == dels[x - m1f.cursor]);
                    }
                } else {
                    assert(m2.files[i] == m1.files[i]);
                }
            }
        }
        self.store.views(now)
    }

    /// An undo request: move the cursor back by at most `n` and publish
    /// a view.
    pub fn on_undo(&mut self, path: &String, n: usize, now: u64) -> (v: Vec<Option<FileVersion>>)
        requires
            store_wf(old(self).store@),
        ensures
            final(self).store@ == undo_model(old(self).store@, path@, n as int),
            store_wf(final(self).store@),
            v@.map_values(|x: Option<FileVersion>| opt_version_model(x)) == view_model(
                final(self).store@,
                now,
            ),
    {
        self.store.undo_by(path, n);
        self.store.views(now)
    }

    /// A redo request: move the cursor forward by at most `n` and
    /// publish a view.
    pub fn on_redo(&mut self, path: &String, n: usize, now: u64) -> (v: Vec<Option<FileVersion>>)
        requires
            store_wf(old(self).store@),
        ensures
            final(self).store@ == redo_model(old(self).store@, path@, n as int),
            store_wf(final(self).store@),
            v@.map_values(|x: Option<FileVersion>| opt_version_model(x)) == view_model(
                final(self).store@,
                now,
            ),
    {
        self.store.redo_by(path, n);
        self.store.views(now)
    }

    /// A time-frame change: swap the filter and publish a view.
    pub fn on_time_frame_change(&mut self, tf: TimeFrame, now: u64) -> (v: Vec<
        Option<FileVersion>,
    >)
        requires
            store_wf(old(self).store@),
        ensures
            final(self).store@ == frame_model(old(self).store@, tf),
            store_wf(final(self).store@),
            v@.map_values(|x: Option<FileVersion>| opt_version_model(x)) == view_model(
                final(self).store@,
                now,
            ),
    {
        self.store.set_time_frame(tf);
        self.store.views(now)
    }

    /// Dispatch one filesystem event: writes and removals mutate the
    /// store and publish a view; watcher errors are reported to the
    /// caller; an unchanged file publishes nothing.
    pub fn handle(&mut self, event: &FsEvent, current_lines: &Vec<String>, now: u64) -> (r: Result<
        Option<Vec<Option<FileVersion>>>,
        String,
    >)
        requires
            store_wf(old(self).store@),
            ts_bounded(old(self).store@, now as int),
            event_wf(*event),
        ensures
            store_wf(final(self).store@),
            ts_bounded(final(self).store@, now as int),
            match event {
                FsEvent::Written(p) => {
                    &&& final(self).store@ == write_model(
                        old(self).store@,
                        p@,
                        current_lines.deep_view(),
                        now,
                    )
                    &&& r matches Ok(v)
                    &&& (r matches Ok(v) ==> match v {
                        Some(vv) => write_delta(
                            old(self).store@,
                            p@,
                            current_lines.deep_view(),
                            now,
                        ).len() != 0 && vv@.map_values(
                            |x: Option<FileVersion>| opt_version_model(x),
                        ) == view_model(final(self).store@, now),
                        None => write_delta(
                            old(self).store@,
                            p@,
                            current_lines.deep_view(),
                            now,
                        ).len() == 0,
                    })
                },
                FsEvent::Removed(p) => {
                    &&& final(self).store@ == remove_model(old(self).store@, p@, now)
                    &&& r matches Ok(v) && v matches Some(vv) && vv@.map_values(
                        |x: Option<FileVersion>| opt_version_model(x),
                    ) == view_model(final(self).store@, now)
                },
                FsEvent::Error(msg) => {
                    &&& final(self).store@ == old(self).store@
                    &&& r matches Err(e) && e@ == msg@
                },
            },
    {
        match event {
            FsEvent::Written(p) => {
                let p = p.clone();
                Ok(self.on_file_change(&p, current_lines, now))
            },
            FsEvent::Removed(p) => {
                let p = p.clone();
                Ok(Some(self.on_file_remove(&p, now)))
            },
            FsEvent::Error(msg) => Err(msg.clone()),
        }
    }
}

} // verus!
