//! The append-only change log store.
//!
//! The store maps each registered path to an ordered change log and an
//! undo cursor. Entries with index below the cursor are applied; entries
//! at or above it are undone but retained. Appending truncates the undone
//! suffix first. Views materialise the applied, in-window prefix of each
//! log under the active time frame.

use vstd::prelude::*;

use crate::record::{recs_of, FileVersion, LineDifference, RecModel, VersionModel};
use crate::replay::{apply_change, degraded_count, is_degraded, materialize, replay, replay_onto};
use crate::time_frame::{cutoff, spec_cutoff, TimeFrame};

verus! {

/// Mathematical model of one file's log: its path, all retained entries,
/// and the cursor separating applied from undone entries.
#[verifier::ext_equal]
pub ghost struct FileModel {
    pub path: Seq<char>,
    pub entries: Seq<RecModel>,
    pub cursor: int,
}

/// One file's change log and undo cursor.
pub struct FileLog {
    pub path: String,
    pub entries: Vec<LineDifference>,
    pub cursor: usize,
}

impl View for FileLog {
    type V = FileModel;

    open spec fn view(&self) -> FileModel {
        FileModel {
            path: self.path@,
            entries: recs_of(self.entries@),
            cursor: self.cursor as int,
        }
    }
}

/// Timestamps never decrease along the sequence.
pub open spec fn ts_sorted(rs: Seq<RecModel>) -> bool {
    forall|i: int, j: int|
        0 <= i <= j < rs.len() ==> (#[trigger] rs[i]).timestamp <= (#[trigger] rs[j]).timestamp
}

/// Well-formedness of one file's log: the cursor stays within the log,
/// the path is non-empty, entries are ordered by timestamp (ties broken
/// by insertion order), and every entry names the file's own path.
pub open spec fn file_wf(f: FileModel) -> bool {
    &&& 0 <= f.cursor <= f.entries.len()
    &&& f.path.len() > 0
    &&& ts_sorted(f.entries)
    &&& forall|i: int| 0 <= i < f.entries.len() ==> (#[trigger] f.entries[i]).path == f.path
}

/// Mathematical model of the whole store.
#[verifier::ext_equal]
pub ghost struct StoreModel {
    pub files: Seq<FileModel>,
    pub frame: TimeFrame,
}

/// The store: every registered file's log, in registration order, and
/// the active time frame.
pub struct Store {
    pub files: Vec<FileLog>,
    pub time_frame: TimeFrame,
}

impl View for Store {
    type V = StoreModel;

    open spec fn view(&self) -> StoreModel {
        StoreModel {
            files: Seq::new(self.files@.len() as nat, |i: int| self.files@[i]@),
            frame: self.time_frame,
        }
    }
}

/// Well-formedness of the store: every log is well-formed and paths are
/// registered at most once.
pub open spec fn store_wf(m: StoreModel) -> bool {
    &&& forall|i: int| 0 <= i < m.files.len() ==> file_wf(#[trigger] m.files[i])
    &&& forall|i: int, j: int|
        0 <= i < j < m.files.len() ==> (#[trigger] m.files[i]).path != (
        #[trigger] m.files[j]).path
}

/// Index of the first file registered under `p`, or `-1`.
pub open spec fn fm_index(files: Seq<FileModel>, p: Seq<char>) -> int
    decreases files.len(),
{
    if files.len() == 0 {
        -1
    } else if files[0].path == p {
        0
    } else {
        let r = fm_index(files.drop_first(), p);
        if r < 0 {
            -1
        } else {
            r + 1
        }
    }
}

/// Whether `p` is registered in the store.
pub open spec fn has_path(m: StoreModel, p: Seq<char>) -> bool {
    fm_index(m.files, p) >= 0
}

/// The retained entries of the log registered under `p`.
pub open spec fn log_of(m: StoreModel, p: Seq<char>) -> Seq<RecModel> {
    m.files[fm_index(m.files, p)].entries
}

/// The undo cursor of the log registered under `p`.
pub open spec fn cursor_of(m: StoreModel, p: Seq<char>) -> int {
    m.files[fm_index(m.files, p)].cursor
}

pub proof fn lemma_fm_index_valid(files: Seq<FileModel>, p: Seq<char>)
    ensures
        fm_index(files, p) == -1 || (0 <= fm_index(files, p) < files.len()
            && files[fm_index(files, p)].path == p),
    decreases files.len(),
{
    if files.len() > 0 && files[0].path != p {
        lemma_fm_index_valid(files.drop_first(), p);
    }
}

pub proof fn lemma_fm_index_first(files: Seq<FileModel>, p: Seq<char>, i: int)
    requires
        0 <= i < files.len(),
        files[i].path == p,
        forall|j: int| 0 <= j < i ==> (#[trigger] files[j]).path != p,
    ensures
        fm_index(files, p) == i,
    decreases files.len(),
{
    if i > 0 {
        lemma_fm_index_first(files.drop_first(), p, i - 1);
    }
}

pub proof fn lemma_fm_index_absent(files: Seq<FileModel>, p: Seq<char>)
    requires
        forall|j: int| 0 <= j < files.len() ==> (#[trigger] files[j]).path != p,
    ensures
        fm_index(files, p) == -1,
    decreases files.len(),
{
    if files.len() > 0 {
        lemma_fm_index_absent(files.drop_first(), p);
    }
}

pub proof fn lemma_fm_index_not_found(files: Seq<FileModel>, p: Seq<char>)
    requires
        fm_index(files, p) == -1,
    ensures
        forall|j: int| 0 <= j < files.len() ==> (#[trigger] files[j]).path != p,
    decreases files.len(),
{
    if files.len() > 0 {
        lemma_fm_index_not_found(files.drop_first(), p);
        assert forall|j: int| 0 <= j < files.len() implies (#[trigger] files[j]).path != p by {
            if j > 0 {
                assert(files[j] == files.drop_first()[j - 1]);
            }
        }
    }
}

/// Replacing the file at `i` with one of the same path moves no index.
pub proof fn lemma_fm_index_update(files: Seq<FileModel>, p: Seq<char>, i: int, f: FileModel)
    requires
        0 <= i < files.len(),
        f.path == files[i].path,
    ensures
        fm_index(files.update(i, f), p) == fm_index(files, p),
    decreases files.len(),
{
    let upd = files.update(i, f);
    if i == 0 {
        assert(upd.drop_first() =~= files.drop_first());
    } else {
        assert(upd[0] == files[0]);
        if files[0].path != p {
            assert(upd.drop_first() =~= files.drop_first().update(i - 1, f));
            lemma_fm_index_update(files.drop_first(), p, i - 1, f);
        }
    }
}

/// Registration: a no-op when `p` is already present, else a new empty
/// log with cursor zero at the end.
pub open spec fn ensure_model(m: StoreModel, p: Seq<char>) -> StoreModel {
    if has_path(m, p) {
        m
    } else {
        StoreModel {
            files: m.files.push(FileModel { path: p, entries: Seq::empty(), cursor: 0 }),
            frame: m.frame,
        }
    }
}

/// Append: the undone suffix is discarded, `rs` is appended, and the
/// cursor advances past it.
pub open spec fn append_model(m: StoreModel, p: Seq<char>, rs: Seq<RecModel>) -> StoreModel {
    let i = fm_index(m.files, p);
    let f = m.files[i];
    StoreModel {
        files: m.files.update(
            i,
            FileModel {
                path: f.path,
                entries: f.entries.take(f.cursor) + rs,
                cursor: f.cursor + rs.len(),
            },
        ),
        frame: m.frame,
    }
}

/// Undo: the cursor decreases by `min(n, cursor)`.
pub open spec fn undo_model(m: StoreModel, p: Seq<char>, n: int) -> StoreModel {
    if !has_path(m, p) {
        m
    } else {
        let i = fm_index(m.files, p);
        let f = m.files[i];
        let nc = if n <= f.cursor {
            f.cursor - n
        } else {
            0
        };
        StoreModel {
            files: m.files.update(i, FileModel { path: f.path, entries: f.entries, cursor: nc }),
            frame: m.frame,
        }
    }
}

/// Redo: the cursor increases by `min(n, len - cursor)`.
pub open spec fn redo_model(m: StoreModel, p: Seq<char>, n: int) -> StoreModel {
    if !has_path(m, p) {
        m
    } else {
        let i = fm_index(m.files, p);
        let f = m.files[i];
        let avail = f.entries.len() - f.cursor;
        let nc = if n <= avail {
            f.cursor + n
        } else {
            f.entries.len() as int
        };
        StoreModel {
            files: m.files.update(i, FileModel { path: f.path, entries: f.entries, cursor: nc }),
            frame: m.frame,
        }
    }
}

/// Swapping the active time frame.
pub open spec fn frame_model(m: StoreModel, tf: TimeFrame) -> StoreModel {
    StoreModel { files: m.files, frame: tf }
}

/// The entries of `rs` whose timestamp falls inside the window of `tf`
/// ending at `now`.
pub open spec fn window(rs: Seq<RecModel>, tf: TimeFrame, now: u64) -> Seq<RecModel> {
    rs.filter(|r: RecModel| r.timestamp >= spec_cutoff(tf, now) as int)
}

/// The applied, in-window entries of the log registered under `p`.
pub open spec fn applied_model(m: StoreModel, p: Seq<char>, now: u64) -> Seq<RecModel> {
    window(log_of(m, p).take(cursor_of(m, p)), m.frame, now)
}

/// The materialised view of one file: `None` when the file is currently
/// empty or deleted.
pub open spec fn file_view_model(f: FileModel, tf: TimeFrame, now: u64) -> Option<VersionModel> {
    let lines = replay(window(f.entries.take(f.cursor), tf, now));
    if lines.len() == 0 {
        None
    } else {
        Some(VersionModel { path: f.path, lines: lines })
    }
}

/// The view of the whole store: one entry per registered path, in
/// registration order.
pub open spec fn view_model(m: StoreModel, now: u64) -> Seq<Option<VersionModel>> {
    Seq::new(m.files.len(), |i: int| file_view_model(m.files[i], m.frame, now))
}

/// The model of an optional materialised version.
pub open spec fn opt_version_model(x: Option<FileVersion>) -> Option<VersionModel> {
    match x {
        Some(fv) => Some(fv@),
        None => None,
    }
}

impl Store {
    /// An empty store observing under the one-hour window.
    pub fn new() -> (s: Store)
        ensures
            s@.files.len() == 0,
            s@.frame == TimeFrame::LastHour,
            store_wf(s@),
    {
        Store { files: Vec::new(), time_frame: TimeFrame::LastHour }
    }

    /// Index of the log registered under `path`, if any.
    fn find_index(&self, path: &String) -> (r: Option<usize>)
        ensures
            match r {
                Some(i) => fm_index(self@.files, path@) == i && i < self.files@.len()
                    && self@.files[i as int].path == path@,
                None => fm_index(self@.files, path@) == -1,
            },
    {
        let mut i: usize = 0;
        while i < self.files.len()
            invariant
                i <= self.files@.len(),
                forall|j: int| 0 <= j < i ==> (#[trigger] self@.files[j]).path != path@,
            decreases self.files@.len() - i,
        {
            if self.files[i].path == *path {
                proof {
                    lemma_fm_index_first(self@.files, path@, i as int);
                }
                return Some(i);
            }
            i = i + 1;
        }
        proof {
            lemma_fm_index_absent(self@.files, path@);
        }
        None
    }

    /// Whether `path` is registered.
    pub fn contains(&self, path: &String) -> (r: bool)
        ensures
            r == has_path(self@, path@),
    {
        self.find_index(path).is_some()
    }

    /// Idempotent registration of a file path.
    pub fn ensure_entry(&mut self, path: &String)
        requires
            store_wf(old(self)@),
            path@.len() > 0,
        ensures
            final(self)@ == ensure_model(old(self)@, path@),
            store_wf(final(self)@),
            has_path(final(self)@, path@),
    {
        let found = self.find_index(path);
        match found {
            Some(_) => {
                proof {
                    assert(self@ =~= ensure_model(old(self)@, path@));
                }
            },
            None => {
                let fl = FileLog { path: path.clone(), entries: Vec::new(), cursor: 0 };
                proof {
                    assert(recs_of(fl.entries@) =~= Seq::<RecModel>::empty());
                    assert(fl@ == (FileModel { path: path@, entries: Seq::empty(), cursor: 0 }));
                }
                self.files.push(fl);
                proof {
                    lemma_fm_index_not_found(old(self)@.files, path@);
                    assert(self@.files =~= ensure_model(old(self)@, path@).files);
                    assert(self@ =~= ensure_model(old(self)@, path@));
                    let m = self@;
                    assert forall|i: int| 0 <= i < m.files.len() implies file_wf(
                        #[trigger] m.files[i],
                    ) by {
                        if i < old(self)@.files.len() {
                            assert(m.files[i] == old(self)@.files[i]);
                        }
                    }
                    lemma_fm_index_first(m.files, path@, m.files.len() - 1);
                }
            },
        }
    }

    /// The applied, in-window entries of one log, in log order.
    fn applied_of_log(f: &FileLog, tf: TimeFrame, now: u64) -> (r: Vec<LineDifference>)
        requires
            file_wf(f@),
        ensures
            recs_of(r@) == window(f@.entries.take(f@.cursor), tf, now),
    {
        let c = cutoff(tf, now);
        let mut out: Vec<LineDifference> = Vec::new();
        let ghost pred = |r: RecModel| r.timestamp >= spec_cutoff(tf, now) as int;
        proof {
            assert(f@.entries.take(0) =~= Seq::<RecModel>::empty());
            assert(recs_of(out@) =~= Seq::<RecModel>::empty());
            assert(Seq::<RecModel>::empty().filter(pred) =~= Seq::<RecModel>::empty());
        }
        let mut k: usize = 0;
        while k < f.cursor
            invariant
                file_wf(f@),
                k <= f.cursor,
                c == spec_cutoff(tf, now),
                pred == (|r: RecModel| r.timestamp >= spec_cutoff(tf, now) as int),
                recs_of(out@) == f@.entries.take(k as int).filter(pred),
            decreases f.cursor - k,
        {
            let ghost pre = out@;
            let e = &f.entries[k];
            if e.timestamp >= c {
                out.push(e.clone());
            }
            proof {
                broadcast use Seq::lemma_filter_push;

                assert(f@.entries.take(k + 1) =~= f@.entries.take(k as int).push(
                    f@.entries[k as int],
                ));
                assert(f@.entries[k as int] == f.entries@[k as int]@);
                if e.timestamp >= c {
                    assert(recs_of(out@) =~= recs_of(pre).push(f@.entries[k as int]));
                    assert(pred(f@.entries[k as int]));
                } else {
                    assert(!pred(f@.entries[k as int]));
                }
            }
            k = k + 1;
        }
        proof {
            assert(window(f@.entries.take(f@.cursor), tf, now) == f@.entries.take(
                f@.cursor,
            ).filter(pred));
        }
        out
    }

    /// The applied prefix of the log for `path`, filtered by the current
    /// time frame; empty when `path` is not registered.
    pub fn applied_changes(&self, path: &String, now: u64) -> (r: Vec<LineDifference>)
        requires
            store_wf(self@),
        ensures
            has_path(self@, path@) ==> recs_of(r@) == applied_model(self@, path@, now),
            !has_path(self@, path@) ==> r@.len() == 0,
    {
        let found = self.find_index(path);
        match found {
            Some(i) => {
                proof {
                    assert(self@.files[i as int] == self.files@[i as int]@);
                }
                Store::applied_of_log(&self.files[i], self.time_frame, now)
            },
            None => Vec::new(),
        }
    }

    /// Truncate the undone suffix, append `changes`, and advance the
    /// cursor past them.
    pub fn append(&mut self, path: &String, changes: &Vec<LineDifference>)
        requires
            store_wf(old(self)@),
            has_path(old(self)@, path@),
            forall|x: int|
                0 <= x < changes@.len() ==> (#[trigger] changes@[x])@.path == path@,
            ts_sorted(recs_of(changes@)),
            forall|x: int, y: int|
                #![trigger log_of(old(self)@, path@)[x], changes@[y]]
                0 <= x < cursor_of(old(self)@, path@) && 0 <= y < changes@.len() ==> log_of(
                    old(self)@,
                    path@,
                )[x].timestamp <= changes@[y]@.timestamp,
        ensures
            final(self)@ == append_model(old(self)@, path@, recs_of(changes@)),
            store_wf(final(self)@),
    {
        let found = self.find_index(path);
        let i = match found {
            Some(i) => i,
            None => {
                proof {
                    assert(false);
                }
                return ;
            },
        };
        let cursor = self.files[i].cursor;
        let mut new_entries: Vec<LineDifference> = Vec::new();
        proof {
            assert(recs_of(new_entries@) =~= recs_of(self.files@[i as int].entries@).take(0));
        }
        let mut k: usize = 0;
        while k < cursor
            invariant
                store_wf(self@),
                fm_index(self@.files, path@) == i,
                i < self.files@.len(),
                cursor == self.files@[i as int].cursor,
                cursor <= self.files@[i as int].entries@.len(),
                k <= cursor,
                recs_of(new_entries@) == recs_of(self.files@[i as int].entries@).take(k as int),
            decreases cursor - k,
        {
            let ghost pre = new_entries@;
            let elem = self.files[i].entries[k].clone();
            let ghost ev = elem@;
            proof {
                assert(ev == recs_of(self.files@[i as int].entries@)[k as int]);
            }
            new_entries.push(elem);
            proof {
                assert(new_entries@ == pre.push(new_entries@[pre.len() as int]));
                assert(recs_of(new_entries@) =~= recs_of(pre).push(ev));
                assert(recs_of(self.files@[i as int].entries@).take(k + 1)
                    =~= recs_of(self.files@[i as int].entries@).take(k as int).push(ev));
                assert(recs_of(new_entries@) =~= recs_of(self.files@[i as int].entries@).take(
                    k + 1,
                ));
            }
            k = k + 1;
        }
        let mut j: usize = 0;
        while j < changes.len()
            invariant
                store_wf(self@),
                fm_index(self@.files, path@) == i,
                i < self.files@.len(),
                cursor == self.files@[i as int].cursor,
                cursor <= self.files@[i as int].entries@.len(),
                j <= changes@.len(),
                recs_of(new_entries@) == recs_of(self.files@[i as int].entries@).take(
                    cursor as int,
                ) + recs_of(changes@).take(j as int),
            decreases changes@.len() - j,
        {
            let ghost pre = new_entries@;
            let elem = changes[j].clone();
            let ghost ev = elem@;
            proof {
                assert(ev == recs_of(changes@)[j as int]);
            }
            new_entries.push(elem);
            proof {
                assert(recs_of(new_entries@) =~= recs_of(pre).push(ev));
                assert(recs_of(changes@).take(j + 1) =~= recs_of(changes@).take(j as int).push(
                    ev,
                ));
                assert(recs_of(new_entries@) =~= recs_of(self.files@[i as int].entries@).take(
                    cursor as int,
                ) + recs_of(changes@).take(j + 1));
            }
            j = j + 1;
        }
        // the built vector's length is exactly the retained prefix plus
        // the appended changes, and a vector's length always fits
        let new_cursor = new_entries.len();
        proof {
            assert(recs_of(new_entries@).len() == new_entries@.len());
            assert(new_cursor == cursor + changes@.len());
        }
        let fl = &mut self.files[i];
        fl.entries = new_entries;
        fl.cursor = new_cursor;
        proof {
            let oldm = old(self)@;
            let newm = self@;
            let rs = recs_of(changes@);
            assert(recs_of(changes@).take(changes@.len() as int) =~= rs);
            let f = oldm.files[i as int];
            let nf = FileModel {
                path: f.path,
                entries: f.entries.take(f.cursor) + rs,
                cursor: f.cursor + rs.len(),
            };
            assert(newm.files =~= oldm.files.update(i as int, nf));
            assert(newm =~= append_model(oldm, path@, rs));
            assert(file_wf(nf)) by {
                assert forall|x: int, y: int|
                    0 <= x <= y < nf.entries.len() implies (#[trigger] nf.entries[x]).timestamp
                    <= (#[trigger] nf.entries[y]).timestamp by {
                    if y < f.cursor {
                        assert(nf.entries[x] == f.entries[x]);
                        assert(nf.entries[y] == f.entries[y]);
                        assert(f.entries[x].timestamp <= f.entries[y].timestamp);
                    } else if x >= f.cursor {
                        assert(nf.entries[x] == rs[x - f.cursor]);
                        assert(nf.entries[y] == rs[y - f.cursor]);
                        assert(rs[x - f.cursor].timestamp <= rs[y - f.cursor].timestamp);
                    } else {
                        assert(nf.entries[x] == f.entries[x]);
                        assert(nf.entries[y] == rs[y - f.cursor]);
                        assert(log_of(oldm, path@) == f.entries);
                        assert(log_of(oldm, path@)[x].timestamp <= changes@[y - f.cursor]@.timestamp);
                        assert(rs[y - f.cursor] == changes@[y - f.cursor]@);
                    }
                }
                assert forall|x: int| 0 <= x < nf.entries.len() implies (
                #[trigger] nf.entries[x]).path == nf.path by {
                    if x >= f.cursor {
                        assert(nf.entries[x] == rs[x - f.cursor]);
                    }
                }
            }
            assert forall|x: int| 0 <= x < newm.files.len() implies file_wf(
                #[trigger] newm.files[x],
            ) by {
                if x != i {
                    assert(newm.files[x] == oldm.files[x]);
                }
            }
        }
    }

    /// Move the cursor back by at most `n`.
    pub fn undo_by(&mut self, path: &String, n: usize)
        requires
            store_wf(old(self)@),
        ensures
            final(self)@ == undo_model(old(self)@, path@, n as int),
            store_wf(final(self)@),
    {
        let found = self.find_index(path);
        match found {
            Some(i) => {
                let fl = &mut self.files[i];
                let nc = if n <= fl.cursor {
                    fl.cursor - n
                } else {
                    0
                };
                fl.cursor = nc;
                proof {
                    let oldm = old(self)@;
                    let f = oldm.files[i as int];
                    assert(self@.files =~= oldm.files.update(
                        i as int,
                        FileModel { path: f.path, entries: f.entries, cursor: nc as int },
                    ));
                    assert(self@ =~= undo_model(oldm, path@, n as int));
                    assert forall|x: int| 0 <= x < self@.files.len() implies file_wf(
                        #[trigger] self@.files[x],
                    ) by {
                        if x != i {
                            assert(self@.files[x] == oldm.files[x]);
                        }
                    }
                }
            },
            None => {
                proof {
                    assert(self@ =~= undo_model(old(self)@, path@, n as int));
                }
            },
        }
    }

    /// Move the cursor forward by at most `n`.
    pub fn redo_by(&mut self, path: &String, n: usize)
        requires
            store_wf(old(self)@),
        ensures
            final(self)@ == redo_model(old(self)@, path@, n as int),
            store_wf(final(self)@),
    {
        let found = self.find_index(path);
        match found {
            Some(i) => {
                let fl = &mut self.files[i];
                let avail = fl.entries.len() - fl.cursor;
                let nc = if n <= avail {
                    fl.cursor + n
                } else {
                    fl.entries.len()
                };
                fl.cursor = nc;
                proof {
                    let oldm = old(self)@;
                    let f = oldm.files[i as int];
                    assert(self@.files =~= oldm.files.update(
                        i as int,
                        FileModel { path: f.path, entries: f.entries, cursor: nc as int },
                    ));
                    assert(self@ =~= redo_model(oldm, path@, n as int));
                    assert forall|x: int| 0 <= x < self@.files.len() implies file_wf(
                        #[trigger] self@.files[x],
                    ) by {
                        if x != i {
                            assert(self@.files[x] == oldm.files[x]);
                        }
                    }
                }
            },
            None => {
                proof {
                    assert(self@ =~= redo_model(old(self)@, path@, n as int));
                }
            },
        }
    }

    /// Atomically swap the active time-frame filter.
    pub fn set_time_frame(&mut self, tf: TimeFrame)
        requires
            store_wf(old(self)@),
        ensures
            final(self)@ == frame_model(old(self)@, tf),
            store_wf(final(self)@),
    {
        self.time_frame = tf;
        proof {
            assert(self@ =~= frame_model(old(self)@, tf));
        }
    }

    /// DegradedView telemetry: how many of the applied, in-window
    /// records of the log for `path` carried an out-of-range line
    /// number and were clamped while materialising the current view;
    /// zero for an unregistered path.
    pub fn degraded_view_count(&self, path: &String, now: u64) -> (c: usize)
        requires
            store_wf(self@),
        ensures
            has_path(self@, path@) ==> c as int == degraded_count(
                applied_model(self@, path@, now),
            ),
            !has_path(self@, path@) ==> c == 0,
    {
        let found = self.find_index(path);
        let i = match found {
            Some(i) => i,
            None => {
                return 0;
            },
        };
        proof {
            assert(self@.files[i as int] == self.files@[i as int]@);
        }
        let applied = Store::applied_of_log(&self.files[i], self.time_frame, now);
        let ghost rs = recs_of(applied@);
        let mut lines: Vec<String> = Vec::new();
        let mut c: usize = 0;
        proof {
            assert(lines.deep_view() =~= Seq::<Seq<char>>::empty());
            assert(rs.take(0) =~= Seq::<RecModel>::empty());
        }
        let mut k: usize = 0;
        while k < applied.len()
            invariant
                k <= applied@.len(),
                rs == recs_of(applied@),
                c <= k,
                lines.deep_view() == replay_onto(Seq::empty(), rs.take(k as int)),
                c as int == degraded_count(rs.take(k as int)),
            decreases applied@.len() - k,
        {
            proof {
                assert(rs.take(k + 1).drop_last() =~= rs.take(k as int));
                assert(rs.take(k + 1).last() == applied@[k as int]@);
            }
            let d = &applied[k];
            let n = lines.len();
            let ln = d.line_number;
            let clamped: bool = if d.before.as_str().is_empty() {
                !(1 <= ln && ln - 1 <= n)
            } else if d.after.as_str().is_empty() {
                n == 0 || !(1 <= ln && ln <= n)
            } else {
                !(1 <= ln && ln <= n)
            };
            proof {
                assert(lines.deep_view().len() == lines@.len());
                assert(clamped == is_degraded(lines.deep_view().len() as int, rs[k as int]));
            }
            if clamped {
                c = c + 1;
            }
            apply_change(&mut lines, d);
            k = k + 1;
        }
        proof {
            assert(rs.take(applied@.len() as int) =~= rs);
        }
        c
    }

    /// Produce one materialised view per registered path, under the
    /// current cursor and time frame.
    pub fn views(&self, now: u64) -> (v: Vec<Option<FileVersion>>)
        requires
            store_wf(self@),
        ensures
            v@.map_values(|x: Option<FileVersion>| opt_version_model(x)) == view_model(
                self@,
                now,
            ),
    {
        let mut v: Vec<Option<FileVersion>> = Vec::new();
        let mut i: usize = 0;
        while i < self.files.len()
            invariant
                store_wf(self@),
                i <= self.files@.len(),
                v@.len() == i,
                forall|j: int|
                    0 <= j < i ==> opt_version_model(#[trigger] v@[j]) == file_view_model(
                        self@.files[j],
                        self@.frame,
                        now,
                    ),
            decreases self.files@.len() - i,
        {
            proof {
                assert(self@.files[i as int] == self.files@[i as int]@);
            }
            let applied = Store::applied_of_log(&self.files[i], self.time_frame, now);
            let lines = materialize(&applied);
            if lines.len() == 0 {
                v.push(None);
            } else {
                v.push(Some(FileVersion { path: self.files[i].path.clone(), lines }));
            }
            i = i + 1;
        }
        proof {
            assert(v@.map_values(|x: Option<FileVersion>| opt_version_model(x)) =~= view_model(
                self@,
                now,
            ));
        }
        v
    }
}

} // verus!
