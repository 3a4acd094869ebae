//! State kept by the terminal UI: the tab strip, the selectable version
//! list, and the per-frame application state. The UI is a pure consumer
//! of views; it holds no domain state beyond what it last received.

use vstd::prelude::*;

use crate::record::LineDifference;
use crate::store::{store_wf, Store};

verus! {

/// The tab strip: the three time-frame titles and the selected index.
pub struct TabsState {
    pub titles: Vec<String>,
    pub index: usize,
}

impl TabsState {
    pub fn new(titles: Vec<String>) -> (t: TabsState)
        ensures
            t.titles == titles,
            t.index == 0,
    {
        TabsState { titles, index: 0 }
    }

    /// Move to the next tab, wrapping around.
    pub fn next(&mut self)
        requires
            old(self).index < old(self).titles@.len(),
        ensures
            final(self).titles == old(self).titles,
            final(self).index == (old(self).index + 1) as int % old(self).titles@.len() as int,
            final(self).index < final(self).titles@.len(),
    {
        let n = self.titles.len();
        proof {
            let ni = (old(self).index + 1) as int;
            assert(ni == n as int ==> ni % (n as int) == 0) by (nonlinear_arith)
                requires
                    ni >= 1,
            ;
            assert(0 <= ni < n as int ==> ni % (n as int) == ni) by (nonlinear_arith);
        }
        if self.index >= n - 1 {
            self.index = 0;
        } else {
            self.index = self.index + 1;
        }
    }

    /// Move to the previous tab, wrapping around.
    pub fn previous(&mut self)
        requires
            old(self).index < old(self).titles@.len(),
        ensures
            final(self).titles == old(self).titles,
            final(self).index == if old(self).index > 0 {
                old(self).index - 1
            } else {
                old(self).titles@.len() - 1
            },
            final(self).index < final(self).titles@.len(),
    {
        if self.index > 0 {
            self.index = self.index - 1;
        } else {
            self.index = self.titles.len() - 1;
        }
    }
}

/// The cursor of a selectable list, mirroring what the UI widget keeps.
pub struct ListSelection {
    pub selected: Option<usize>,
}

impl ListSelection {
    pub fn new() -> (s: ListSelection)
        ensures
            s.selected is None,
    {
        ListSelection { selected: None }
    }

    pub fn select(&mut self, idx: Option<usize>)
        ensures
            final(self).selected == idx,
    {
        self.selected = idx;
    }

    pub fn selected(&self) -> (r: Option<usize>)
        ensures
            r == self.selected,
    {
        self.selected
    }
}

/// A list of items together with the UI's selection cursor.
pub struct StatefulList<T> {
    pub state: ListSelection,
    pub items: Vec<T>,
}

impl<T> StatefulList<T> {
    pub fn new() -> (l: StatefulList<T>)
        ensures
            l.state.selected is None,
            l.items@.len() == 0,
    {
        StatefulList { state: ListSelection::new(), items: Vec::new() }
    }

    pub fn with_items(items: Vec<T>) -> (l: StatefulList<T>)
        ensures
            l.state.selected is None,
            l.items == items,
    {
        StatefulList { state: ListSelection::new(), items }
    }

    /// Select the next item, wrapping to the first past the end; an
    /// empty selection starts at the first item.
    pub fn next(&mut self)
        requires
            old(self).state.selected matches Some(_) ==> old(self).items@.len() > 0,
        ensures
            final(self).items == old(self).items,
            final(self).state.selected == Some(
                match old(self).state.selected {
                    Some(i) => if i + 1 >= old(self).items@.len() {
                        0
                    } else {
                        (i + 1) as usize
                    },
                    None => 0,
                },
            ),
    {
        let i: usize = match self.state.selected() {
            Some(i) => {
                if i >= self.items.len() - 1 {
                    0
                } else {
                    i + 1
                }
            },
            None => 0,
        };
        self.state.select(Some(i));
    }

    /// Select the previous item, wrapping to the last before the first;
    /// an empty selection starts at the first item.
    pub fn previous(&mut self)
        requires
            old(self).state.selected matches Some(_) ==> old(self).items@.len() > 0,
        ensures
            final(self).items == old(self).items,
            final(self).state.selected == Some(
                match old(self).state.selected {
                    Some(i) => if i == 0 {
                        (old(self).items@.len() - 1) as usize
                    } else {
                        (i - 1) as usize
                    },
                    None => 0,
                },
            ),
    {
        let i: usize = match self.state.selected() {
            Some(i) => {
                if i == 0 {
                    self.items.len() - 1
                } else {
                    i - 1
                }
            },
            None => 0,
        };
        self.state.select(Some(i));
    }

    /// Clear the selection.
    pub fn unselect(&mut self)
        ensures
            final(self).items == old(self).items,
            final(self).state.selected is None,
    {
        self.state.select(None);
    }
}

/// One row of the demonstration server table the UI renders.
pub struct LineDifference1 {
    pub name: String,
    pub location: String,
}

/// Per-frame application state of the terminal UI.
pub struct App {
    pub title: String,
    pub should_quit: bool,
    pub tabs: TabsState,
    pub show_chart: bool,
    pub versions: StatefulList<String>,
    pub available_versions: Vec<String>,
    pub new_version: Vec<LineDifference>,
    pub processed_diffs: Vec<String>,
    pub servers: Vec<LineDifference1>,
}

/// The UI state the app relies on: the tab strip is never empty and a
/// selection always points into the version list.
pub open spec fn app_wf(a: App) -> bool {
    &&& a.tabs.index < a.tabs.titles@.len()
    &&& (a.versions.state.selected matches Some(i) ==> i < a.versions.items@.len())
    &&& (a.versions.state.selected matches Some(_) ==> a.versions.items@.len() > 0)
}

impl App {
    /// A fresh UI state titled `title`, with the three time-frame tabs
    /// and nothing selected.
    pub fn new(title: String) -> (a: App)
        ensures
            app_wf(a),
            a.title == title,
            !a.should_quit,
            a.show_chart,
            a.tabs.index == 0,
            a.tabs.titles@.len() == 3,
            a.tabs.titles@[0]@ == "1h"@,
            a.tabs.titles@[1]@ == "24h"@,
            a.tabs.titles@[2]@ == "7 Tage"@,
            a.versions.items@.len() == 0,
            a.versions.state.selected is None,
            a.available_versions@.len() == 0,
            a.new_version@.len() == 0,
            a.processed_diffs@.len() == 0,
            a.servers@.len() == 1,
            a.servers@[0].name@ == "foo"@,
            a.servers@[0].location@ == "bar"@,
    {
        let mut titles: Vec<String> = Vec::new();
        titles.push("1h".to_string());
        titles.push("24h".to_string());
        titles.push("7 Tage".to_string());
        let mut servers: Vec<LineDifference1> = Vec::new();
        servers.push(LineDifference1 { name: "foo".to_string(), location: "bar".to_string() });
        App {
            title,
            should_quit: false,
            tabs: TabsState::new(titles),
            show_chart: true,
            available_versions: Vec::new(),
            versions: StatefulList::new(),
            processed_diffs: Vec::new(),
            new_version: Vec::new(),
            servers,
        }
    }

    /// Move the version selection up: to the wrap-around predecessor of
    /// the old selection, to the first item when nothing was selected,
    /// and to no selection at all when the list is empty. Nothing else
    /// changes.
    pub fn on_up(&mut self)
        requires
            app_wf(*old(self)),
        ensures
            app_wf(*final(self)),
            final(self).versions.items == old(self).versions.items,
            final(self).versions.state.selected == (if old(self).versions.items@.len() == 0 {
                None
            } else {
                Some(
                    match old(self).versions.state.selected {
                        Some(i) => if i == 0 {
                            (old(self).versions.items@.len() - 1) as usize
                        } else {
                            (i - 1) as usize
                        },
                        None => 0usize,
                    },
                )
            }),
            final(self).title == old(self).title,
            final(self).should_quit == old(self).should_quit,
            final(self).show_chart == old(self).show_chart,
            final(self).tabs == old(self).tabs,
            final(self).available_versions == old(self).available_versions,
            final(self).new_version == old(self).new_version,
            final(self).processed_diffs == old(self).processed_diffs,
            final(self).servers == old(self).servers,
    {
        if self.versions.items.len() == 0 {
            self.versions.unselect();
        } else {
            self.versions.previous();
        }
    }

    /// Move the version selection down: to the wrap-around successor of
    /// the old selection, to the first item when nothing was selected,
    /// and to no selection at all when the list is empty. Nothing else
    /// changes.
    pub fn on_down(&mut self)
        requires
            app_wf(*old(self)),
        ensures
            app_wf(*final(self)),
            final(self).versions.items == old(self).versions.items,
            final(self).versions.state.selected == (if old(self).versions.items@.len() == 0 {
                None
            } else {
                Some(
                    match old(self).versions.state.selected {
                        Some(i) => if i + 1 >= old(self).versions.items@.len() {
                            0usize
                        } else {
                            (i + 1) as usize
                        },
                        None => 0usize,
                    },
                )
            }),
            final(self).title == old(self).title,
            final(self).should_quit == old(self).should_quit,
            final(self).show_chart == old(self).show_chart,
            final(self).tabs == old(self).tabs,
            final(self).available_versions == old(self).available_versions,
            final(self).new_version == old(self).new_version,
            final(self).processed_diffs == old(self).processed_diffs,
            final(self).servers == old(self).servers,
    {
        if self.versions.items.len() == 0 {
            self.versions.unselect();
        } else {
            self.versions.next();
        }
    }

    /// Cycle the time-frame tab forward, wrapping around. Nothing else
    /// changes.
    pub fn on_right(&mut self)
        requires
            app_wf(*old(self)),
        ensures
            app_wf(*final(self)),
            final(self).tabs.index == (old(self).tabs.index + 1) as int % old(
                self,
            ).tabs.titles@.len() as int,
            final(self).tabs.titles == old(self).tabs.titles,
            final(self).title == old(self).title,
            final(self).should_quit == old(self).should_quit,
            final(self).show_chart == old(self).show_chart,
            final(self).versions == old(self).versions,
            final(self).available_versions == old(self).available_versions,
            final(self).new_version == old(self).new_version,
            final(self).processed_diffs == old(self).processed_diffs,
            final(self).servers == old(self).servers,
    {
        self.tabs.next();
    }

    /// Cycle the time-frame tab backward, wrapping around. Nothing else
    /// changes.
    pub fn on_left(&mut self)
        requires
            app_wf(*old(self)),
        ensures
            app_wf(*final(self)),
            final(self).tabs.index == if old(self).tabs.index > 0 {
                old(self).tabs.index - 1
            } else {
                old(self).tabs.titles@.len() - 1
            },
            final(self).tabs.titles == old(self).tabs.titles,
            final(self).title == old(self).title,
            final(self).should_quit == old(self).should_quit,
            final(self).show_chart == old(self).show_chart,
            final(self).versions == old(self).versions,
            final(self).available_versions == old(self).available_versions,
            final(self).new_version == old(self).new_version,
            final(self).processed_diffs == old(self).processed_diffs,
            final(self).servers == old(self).servers,
    {
        self.tabs.previous();
    }

    /// Handle one decoded keypress: `q` requests shutdown; any other
    /// key leaves the state entirely unchanged.
    pub fn on_key(&mut self, c: char)
        ensures
            final(self).should_quit == (c == 'q' || old(self).should_quit),
            final(self).title == old(self).title,
            final(self).show_chart == old(self).show_chart,
            final(self).tabs == old(self).tabs,
            final(self).versions == old(self).versions,
            final(self).available_versions == old(self).available_versions,
            final(self).new_version == old(self).new_version,
            final(self).processed_diffs == old(self).processed_diffs,
            final(self).servers == old(self).servers,
            c != 'q' ==> *final(self) == *old(self),
    {
        match c {
            'q' => {
                self.should_quit = true;
            },
            _ => {},
        }
    }

    /// A clock tick; the UI state does not change.
    pub fn on_tick(&mut self)
        ensures
            *final(self) == *old(self),
    {
    }
}

/// The paired daemon state the UI drives: the watched directory and the
/// store-owning side of the pipeline.
pub struct AutoStash {
    pub watch_path: String,
    pub store: Store,
}

impl AutoStash {
    /// Assemble the daemon state from an opened store and the directory
    /// it observes.
    pub fn new(watch_path: String, store: Store) -> (a: AutoStash)
        requires
            store_wf(store@),
        ensures
            a.watch_path == watch_path,
            a.store == store,
            store_wf(a.store@),
    {
        AutoStash { watch_path, store }
    }
}

} // verus!
