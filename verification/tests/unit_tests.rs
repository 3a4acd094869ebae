use auto_stash::config::{parse_u64, Config};
use auto_stash::diff_engine::find_diff;
use auto_stash::handler::{EventHandle, FsEvent};
use auto_stash::record::LineDifference;
use auto_stash::replay::materialize;
use auto_stash::store::Store;
use auto_stash::time_frame::{cutoff, TimeFrame};
use auto_stash::ui_state::{App, StatefulList, TabsState};

fn lines(v: &[&str]) -> Vec<String> {
    v.iter().map(|s| s.to_string()).collect()
}

#[test]
fn cutoff_values() {
    assert_eq!(cutoff(TimeFrame::LastHour, 5000), 1400);
    assert_eq!(cutoff(TimeFrame::LastDay, 100_000), 13_600);
    assert_eq!(cutoff(TimeFrame::LastWeek, 700_000), 95_200);
    // saturates at the epoch
    assert_eq!(cutoff(TimeFrame::LastDay, 5000), 0);
}

#[test]
fn record_constructor_keeps_fields() {
    let d = LineDifference::new("p.txt".to_string(), 7, "x".to_string(), "y".to_string(), 42);
    assert_eq!(d.path, "p.txt");
    assert_eq!(d.line_number, 7);
    assert_eq!(d.before, "x");
    assert_eq!(d.after, "y");
    assert_eq!(d.timestamp, 42);
}

#[test]
fn diff_emits_in_line_order() {
    let path = "p.txt".to_string();
    let delta = find_diff(&path, &lines(&["a", "b", "c"]), &lines(&["a", "x", "c", "d"]), 9);
    assert_eq!(delta.len(), 2);
    assert_eq!(delta[0].line_number, 2);
    assert_eq!(delta[0].before, "b");
    assert_eq!(delta[0].after, "x");
    assert_eq!(delta[1].line_number, 4);
    assert_eq!(delta[1].before, "");
    assert_eq!(delta[1].after, "d");
    assert!(delta.iter().all(|d| d.path == path && d.timestamp == 9));
}

#[test]
fn diff_deletions_keep_old_line_numbers() {
    let path = "p.txt".to_string();
    let delta = find_diff(&path, &lines(&["a", "b", "c"]), &lines(&["a"]), 9);
    assert_eq!(delta.len(), 2);
    assert_eq!(delta[0].line_number, 2);
    assert_eq!(delta[0].before, "b");
    assert_eq!(delta[0].after, "");
    assert_eq!(delta[1].line_number, 3);
    assert_eq!(delta[1].before, "c");
    assert_eq!(delta[1].after, "");
}

#[test]
fn diff_of_identical_content_is_empty() {
    let path = "p.txt".to_string();
    let delta = find_diff(&path, &lines(&["a"]), &lines(&["a"]), 9);
    assert!(delta.is_empty());
    let delta = find_diff(&path, &Vec::new(), &Vec::new(), 9);
    assert!(delta.is_empty());
}

#[test]
fn materialize_clamps_out_of_range_records() {
    let p = "p.txt".to_string();
    // an insertion far past the end appends
    let recs = vec![LineDifference::new(p.clone(), 5, String::new(), "a".to_string(), 1)];
    assert_eq!(materialize(&recs), lines(&["a"]));
    // a deletion past the end removes the trailing line
    let recs = vec![
        LineDifference::new(p.clone(), 1, String::new(), "a".to_string(), 1),
        LineDifference::new(p.clone(), 2, String::new(), "b".to_string(), 2),
        LineDifference::new(p.clone(), 9, "b".to_string(), String::new(), 3),
    ];
    assert_eq!(materialize(&recs), lines(&["a"]));
    // a replacement past the end appends
    let recs = vec![
        LineDifference::new(p.clone(), 1, String::new(), "a".to_string(), 1),
        LineDifference::new(p.clone(), 7, "q".to_string(), "r".to_string(), 2),
    ];
    assert_eq!(materialize(&recs), lines(&["a", "r"]));
    // a deletion on empty content does nothing
    let recs = vec![LineDifference::new(p.clone(), 1, "x".to_string(), String::new(), 1)];
    assert_eq!(materialize(&recs), Vec::<String>::new());
}

#[test]
fn parse_u64_accepts_digits() {
    assert_eq!(parse_u64("0"), Some(0));
    assert_eq!(parse_u64("1500"), Some(1500));
    assert_eq!(parse_u64("18446744073709551615"), Some(u64::MAX));
}

#[test]
fn parse_u64_rejects_bad_input() {
    assert_eq!(parse_u64(""), None);
    assert_eq!(parse_u64("12a"), None);
    assert_eq!(parse_u64("-3"), None);
    assert_eq!(parse_u64("18446744073709551616"), None);
}

#[test]
fn config_reads_three_arguments() {
    let args = lines(&["auto-stash", "store.db", "/tmp/watched", "250"]);
    let c = Config::new(&args).expect("all arguments are present");
    assert_eq!(c.store_path, "store.db");
    assert_eq!(c.watch_path, "/tmp/watched");
    assert_eq!(c.debounce_time_ms, 250);
}

#[test]
fn config_reports_each_missing_argument() {
    assert_eq!(
        Config::new(&lines(&["auto-stash"])).unwrap_err(),
        "Didn't get a store path"
    );
    assert_eq!(
        Config::new(&lines(&["auto-stash", "s"])).unwrap_err(),
        "Didn't get a watch path"
    );
    assert_eq!(
        Config::new(&lines(&["auto-stash", "s", "w"])).unwrap_err(),
        "Didn't get a debounce time"
    );
    assert_eq!(
        Config::new(&lines(&["auto-stash", "s", "w", "fast"])).unwrap_err(),
        "Didn't get a valid debounce time"
    );
}

#[test]
fn tabs_cycle_and_wrap() {
    let mut t = TabsState::new(lines(&["1h", "24h", "7 Tage"]));
    assert_eq!(t.index, 0);
    t.next();
    t.next();
    assert_eq!(t.index, 2);
    t.next();
    assert_eq!(t.index, 0);
    t.previous();
    assert_eq!(t.index, 2);
    t.previous();
    assert_eq!(t.index, 1);
}

#[test]
fn stateful_list_selection_wraps() {
    let mut l = StatefulList::with_items(lines(&["v1", "v2", "v3"]));
    assert_eq!(l.state.selected, None);
    l.next();
    assert_eq!(l.state.selected, Some(0));
    l.next();
    l.next();
    assert_eq!(l.state.selected, Some(2));
    l.next();
    assert_eq!(l.state.selected, Some(0));
    l.previous();
    assert_eq!(l.state.selected, Some(2));
    l.unselect();
    assert_eq!(l.state.selected, None);
    l.previous();
    assert_eq!(l.state.selected, Some(0));
}

#[test]
fn app_starts_with_the_three_frame_tabs() {
    let app = App::new("AutoStash".to_string());
    assert_eq!(app.tabs.titles, lines(&["1h", "24h", "7 Tage"]));
    assert_eq!(app.tabs.index, 0);
    assert_eq!(app.servers.len(), 1);
    assert_eq!(app.servers[0].name, "foo");
    assert_eq!(app.servers[0].location, "bar");
}

#[test]
fn app_selection_moves_and_wraps() {
    let mut app = App::new("AutoStash".to_string());
    // an empty list never gains a selection
    app.on_down();
    assert_eq!(app.versions.state.selected, None);
    app.on_up();
    assert_eq!(app.versions.state.selected, None);
    app.versions = StatefulList::with_items(lines(&["v1", "v2", "v3"]));
    app.on_down();
    assert_eq!(app.versions.state.selected, Some(0));
    app.on_down();
    assert_eq!(app.versions.state.selected, Some(1));
    app.on_up();
    assert_eq!(app.versions.state.selected, Some(0));
    app.on_up();
    assert_eq!(app.versions.state.selected, Some(2));
    app.on_down();
    assert_eq!(app.versions.state.selected, Some(0));
}

#[test]
fn app_keypress_and_tabs() {
    let mut app = App::new("AutoStash".to_string());
    assert!(!app.should_quit);
    app.on_key('x');
    assert!(!app.should_quit);
    app.on_key('q');
    assert!(app.should_quit);
    app.on_right();
    assert_eq!(app.tabs.index, 1);
    app.on_left();
    assert_eq!(app.tabs.index, 0);
    app.on_left();
    assert_eq!(app.tabs.index, 2);
    app.on_tick();
    assert_eq!(app.tabs.index, 2);
}

#[test]
fn degraded_view_count_reports_clamping() {
    let p = "p.txt".to_string();
    let now: u64 = 10_000;
    let mut store = Store::new();
    store.ensure_entry(&p);
    let entries = vec![
        // in range: starts the file
        LineDifference::new(p.clone(), 1, String::new(), "a".to_string(), now - 10),
        // insertion far past the end: clamped to a trailing append
        LineDifference::new(p.clone(), 9, String::new(), "b".to_string(), now - 9),
        // deletion past the end: clamped to the trailing line
        LineDifference::new(p.clone(), 7, "b".to_string(), String::new(), now - 8),
        // replacement in range: not clamped
        LineDifference::new(p.clone(), 1, "a".to_string(), "c".to_string(), now - 7),
    ];
    store.append(&p, &entries);
    assert_eq!(store.degraded_view_count(&p, now), 2);
    assert_eq!(store.degraded_view_count(&"other".to_string(), now), 0);
}

#[test]
fn event_classification() {
    let w = FsEvent::Written("a".to_string());
    let r = FsEvent::Removed("a".to_string());
    let e = FsEvent::Error("msg".to_string());
    assert!(EventHandle::is_modification(&w));
    assert!(!EventHandle::is_modification(&r));
    assert!(EventHandle::is_removed(&r));
    assert!(!EventHandle::is_removed(&e));
    assert_eq!(EventHandle::to_path(&w).unwrap(), Some("a".to_string()));
    assert_eq!(EventHandle::to_path(&r).unwrap(), Some("a".to_string()));
    assert_eq!(EventHandle::to_path(&e).unwrap_err(), "msg");
}
