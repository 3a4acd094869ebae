use auto_stash::handler::{EventHandle, FsEvent};
use auto_stash::record::{FileVersion, LineDifference};
use auto_stash::store::Store;
use auto_stash::time_frame::TimeFrame;

fn lines(v: &[&str]) -> Vec<String> {
    v.iter().map(|s| s.to_string()).collect()
}

fn view_lines(v: &Option<FileVersion>) -> Vec<String> {
    match v {
        Some(fv) => fv.lines.clone(),
        None => Vec::new(),
    }
}

const T0: u64 = 4_000_000;

fn written_handle() -> (EventHandle, String) {
    let mut h = EventHandle::new(Store::new());
    let path = "f.txt".to_string();
    let r = h.on_file_change(&path, &lines(&["a", "b"]), T0);
    assert!(r.is_some());
    (h, path)
}

#[test]
fn insertion_scenario() {
    let (h, path) = written_handle();
    assert_eq!(h.store.files.len(), 1);
    let log = &h.store.files[0];
    assert_eq!(log.path, path);
    assert_eq!(log.entries.len(), 2);
    assert_eq!(log.cursor, 2);
    assert_eq!(log.entries[0].line_number, 1);
    assert_eq!(log.entries[0].before, "");
    assert_eq!(log.entries[0].after, "a");
    assert_eq!(log.entries[1].line_number, 2);
    assert_eq!(log.entries[1].before, "");
    assert_eq!(log.entries[1].after, "b");
    let v = h.init_file_versions(T0);
    assert_eq!(v.len(), 1);
    assert_eq!(view_lines(&v[0]), lines(&["a", "b"]));
}

#[test]
fn modification_scenario() {
    let (mut h, path) = written_handle();
    let r = h.on_file_change(&path, &lines(&["a", "c"]), T0 + 10);
    let v = r.expect("a changed file publishes a view");
    assert_eq!(h.store.files[0].entries.len(), 3);
    let e = &h.store.files[0].entries[2];
    assert_eq!(e.line_number, 2);
    assert_eq!(e.before, "b");
    assert_eq!(e.after, "c");
    assert_eq!(view_lines(&v[0]), lines(&["a", "c"]));
}

#[test]
fn unchanged_write_publishes_nothing() {
    let (mut h, path) = written_handle();
    let r = h.on_file_change(&path, &lines(&["a", "b"]), T0 + 10);
    assert!(r.is_none());
    assert_eq!(h.store.files[0].entries.len(), 2);
}

#[test]
fn undo_scenario() {
    let (mut h, path) = written_handle();
    h.on_file_change(&path, &lines(&["a", "c"]), T0 + 10);
    let v = h.on_undo(&path, 1, T0 + 20);
    assert_eq!(view_lines(&v[0]), lines(&["a", "b"]));
    assert_eq!(h.store.files[0].cursor, 2);
}

#[test]
fn redo_scenario() {
    let (mut h, path) = written_handle();
    h.on_file_change(&path, &lines(&["a", "c"]), T0 + 10);
    h.on_undo(&path, 1, T0 + 20);
    let v = h.on_redo(&path, 1, T0 + 30);
    assert_eq!(view_lines(&v[0]), lines(&["a", "c"]));
    assert_eq!(h.store.files[0].cursor, 3);
}

#[test]
fn truncation_scenario() {
    let (mut h, path) = written_handle();
    h.on_file_change(&path, &lines(&["a", "c"]), T0 + 10);
    h.on_undo(&path, 1, T0 + 20);
    let r = h.on_file_change(&path, &lines(&["a", "z"]), T0 + 30);
    let v = r.expect("a changed file publishes a view");
    let log = &h.store.files[0];
    assert_eq!(log.entries.len(), 3);
    let e = &log.entries[2];
    assert_eq!(e.line_number, 2);
    assert_eq!(e.before, "b");
    assert_eq!(e.after, "z");
    assert_eq!(view_lines(&v[0]), lines(&["a", "z"]));
    // a further redo of the discarded entry is a no-op
    let v2 = h.on_redo(&path, 1, T0 + 40);
    assert_eq!(view_lines(&v2[0]), lines(&["a", "z"]));
    assert_eq!(h.store.files[0].cursor, 3);
}

#[test]
fn undo_redo_round_trip_restores_view() {
    let (mut h, path) = written_handle();
    h.on_file_change(&path, &lines(&["a", "c"]), T0 + 10);
    h.on_file_change(&path, &lines(&["q", "c"]), T0 + 20);
    let before = h.init_file_versions(T0 + 30);
    h.on_undo(&path, 2, T0 + 30);
    let v = h.on_redo(&path, 2, T0 + 30);
    assert_eq!(view_lines(&before[0]), view_lines(&v[0]));
}

#[test]
fn replay_fidelity_with_deletions() {
    let (mut h, path) = written_handle();
    let r = h.on_file_change(&path, &lines(&["a", "b", "c", "d"]), T0 + 10);
    assert!(r.is_some());
    let r = h.on_file_change(&path, &lines(&["x"]), T0 + 20);
    let v = r.expect("a shrinking file publishes a view");
    assert_eq!(view_lines(&v[0]), lines(&["x"]));
}

#[test]
fn remove_then_undo_restores() {
    let (mut h, path) = written_handle();
    let v = h.on_file_remove(&path, T0 + 10);
    assert!(v[0].is_none());
    let log = &h.store.files[0];
    assert_eq!(log.entries.len(), 4);
    assert_eq!(log.entries[2].before, "a");
    assert_eq!(log.entries[2].after, "");
    assert_eq!(log.entries[3].before, "b");
    assert_eq!(log.entries[3].after, "");
    let v2 = h.on_undo(&path, 2, T0 + 20);
    assert_eq!(view_lines(&v2[0]), lines(&["a", "b"]));
}

#[test]
fn time_frame_hides_old_entries() {
    let mut store = Store::new();
    let path = "f.txt".to_string();
    let now: u64 = 1_000_000;
    store.ensure_entry(&path);
    let old_entry = vec![LineDifference::new(
        path.clone(),
        1,
        String::new(),
        "old".to_string(),
        now - 7200,
    )];
    store.append(&path, &old_entry);
    let new_entry = vec![LineDifference::new(
        path.clone(),
        2,
        String::new(),
        "new".to_string(),
        now - 600,
    )];
    store.append(&path, &new_entry);
    store.set_time_frame(TimeFrame::LastHour);
    let v = store.views(now);
    assert_eq!(view_lines(&v[0]), lines(&["new"]));
    store.set_time_frame(TimeFrame::LastDay);
    let v = store.views(now);
    assert_eq!(view_lines(&v[0]), lines(&["old", "new"]));
}

#[test]
fn widening_never_loses_recent_lines() {
    let mut store = Store::new();
    let path = "f.txt".to_string();
    let now: u64 = 1_000_000;
    store.ensure_entry(&path);
    let entries = vec![
        LineDifference::new(path.clone(), 1, String::new(), "two hours old".to_string(), now - 7200),
        LineDifference::new(path.clone(), 2, String::new(), "fresh".to_string(), now - 60),
    ];
    store.append(&path, &entries);
    store.set_time_frame(TimeFrame::LastHour);
    let narrow = store.views(now);
    store.set_time_frame(TimeFrame::LastWeek);
    let wide = store.views(now);
    for line in view_lines(&narrow[0]) {
        assert!(view_lines(&wide[0]).contains(&line));
    }
}

#[test]
fn serial_ordering_two_paths() {
    let mut h = EventHandle::new(Store::new());
    let p1 = "one.txt".to_string();
    let p2 = "two.txt".to_string();
    let v1 = h
        .on_file_change(&p1, &lines(&["first"]), T0)
        .expect("first write publishes");
    let v2 = h
        .on_file_change(&p2, &lines(&["second"]), T0 + 1)
        .expect("second write publishes");
    assert_eq!(v1.len(), 1);
    assert_eq!(view_lines(&v1[0]), lines(&["first"]));
    assert_eq!(v2.len(), 2);
    assert_eq!(view_lines(&v2[0]), lines(&["first"]));
    assert_eq!(view_lines(&v2[1]), lines(&["second"]));
}

#[test]
fn handle_dispatches_events() {
    let mut h = EventHandle::new(Store::new());
    let empty: Vec<String> = Vec::new();
    let r = h.handle(
        &FsEvent::Written("f.txt".to_string()),
        &lines(&["a"]),
        T0,
    );
    assert!(matches!(r, Ok(Some(_))));
    let r = h.handle(&FsEvent::Removed("f.txt".to_string()), &empty, T0 + 1);
    assert!(matches!(r, Ok(Some(_))));
    let r = h.handle(&FsEvent::Error("boom".to_string()), &empty, T0 + 2);
    assert_eq!(r.unwrap_err(), "boom");
}

#[test]
fn undo_on_unknown_path_is_noop() {
    let mut h = EventHandle::new(Store::new());
    let v = h.on_undo(&"ghost.txt".to_string(), 3, T0);
    assert!(v.is_empty());
    assert!(h.store.files.is_empty());
}
