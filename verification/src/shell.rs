//! Browser shell state: tab identities, per-tab navigation history, and
//! the events the shell dispatches.

use vstd::prelude::*;

use crate::css_parser::Stylesheet;
use crate::dom::Dom;
use crate::loader::{PageResources, ResourceLoader};
use crate::text::{owned, str_eq};

verus! {

/// A unique 64-bit identifier for a browser tab.
#[derive(Debug, Clone, Copy, PartialEq, Eq, Hash, Structural)]
pub struct TabId(pub u64);

/// User input and UI events dispatched to the browser shell.
#[derive(Debug, Clone, PartialEq, Eq)]
pub enum ShellEvent {
    /// Navigate the active tab to a new URL.
    NavigateTo(String),
    /// Open a new tab at a URL.
    NewTab(String),
    /// Close the tab at an index.
    CloseTab(usize),
    /// Make the tab at an index active.
    SwitchTab(usize),
    /// Go back in the active tab's history.
    GoBack,
    /// Go forward in the active tab's history.
    GoForward,
    /// Reload the active tab.
    Reload,
}

/// Per-tab navigation history: the visited URLs in order and the index of
/// the current one.
#[derive(Debug, Clone, Default)]
pub struct NavigationHistory {
    pub stack: Vec<String>,
    pub current_index: usize,
}

/// The abstract history: the URLs, and the current index.
pub struct HistoryModel {
    pub urls: Seq<Seq<char>>,
    pub current: int,
}

/// History after moving back one entry.
pub open spec fn spec_back(h: HistoryModel) -> HistoryModel {
    if h.current > 0 {
        HistoryModel { urls: h.urls, current: h.current - 1 }
    } else {
        h
    }
}

/// History after moving forward one entry.
pub open spec fn spec_forward(h: HistoryModel) -> HistoryModel {
    if h.current + 1 < h.urls.len() {
        HistoryModel { urls: h.urls, current: h.current + 1 }
    } else {
        h
    }
}

/// History after navigating to `url`: forward entries are dropped and the
/// new URL becomes the current, last entry.
pub open spec fn spec_push(h: HistoryModel, url: Seq<char>) -> HistoryModel {
    if h.urls.len() == 0 {
        HistoryModel { urls: seq![url], current: 0 }
    } else {
        let kept = if h.current < h.urls.len() { h.urls.take(h.current + 1) } else { h.urls };
        HistoryModel { urls: kept.push(url), current: kept.len() as int }
    }
}

/// Going back and then forward returns to the same place.
pub proof fn lemma_back_then_forward(h: HistoryModel)
    requires
        0 < h.current < h.urls.len(),
    ensures
        spec_forward(spec_back(h)) == h,
{
}

/// Going forward and then back returns to the same place.
pub proof fn lemma_forward_then_back(h: HistoryModel)
    requires
        0 <= h.current,
        h.current + 1 < h.urls.len(),
    ensures
        spec_back(spec_forward(h)) == h,
{
}

/// After navigating, the new URL is current and there is no forward history.
pub proof fn lemma_push_is_current(h: HistoryModel, url: Seq<char>)
    requires
        0 <= h.current,
    ensures
        0 <= spec_push(h, url).current < spec_push(h, url).urls.len(),
        spec_push(h, url).urls[spec_push(h, url).current] == url,
        spec_push(h, url).current + 1 == spec_push(h, url).urls.len(),
{
}

impl NavigationHistory {
    pub open spec fn model(&self) -> HistoryModel {
        HistoryModel { urls: self.stack@.map_values(|s: String| s@), current: self.current_index as int }
    }

    /// A history holding just the starting URL.
    pub fn new(initial_url: &str) -> (res: Self)
        ensures
            res.model().urls == seq![initial_url@],
            res.model().current == 0,
    {
        let mut stack: Vec<String> = Vec::new();
        stack.push(owned(initial_url));
        let res = NavigationHistory { stack, current_index: 0 };
        assert(res.model().urls =~= seq![initial_url@]);
        res
    }

    /// Is there an entry before the current one?
    pub fn can_go_back(&self) -> (res: bool)
        ensures
            res == (self.current_index > 0),
    {
        self.current_index > 0
    }

    /// Is there an entry after the current one?
    pub fn can_go_forward(&self) -> (res: bool)
        ensures
            res == (self.current_index + 1 < self.stack@.len()),
    {
        self.stack.len() > 0 && self.current_index < self.stack.len() - 1
    }

    /// Navigate to a new URL, dropping any forward history.
    pub fn push_url(&mut self, url: &str)
        ensures
            final(self).model() == spec_push(old(self).model(), url@),
    {
        if self.stack.len() == 0 {
            self.stack.push(owned(url));
            self.current_index = 0;
            assert(self.model().urls =~= seq![url@]);
            return ;
        }
        let ghost h = old(self).model();
        if self.current_index < self.stack.len() {
            self.stack.truncate(self.current_index + 1);
        }
        self.stack.push(owned(url));
        self.current_index = self.stack.len() - 1;
        proof {
            let kept = if h.current < h.urls.len() { h.urls.take(h.current + 1) } else { h.urls };
            assert(self.model().urls =~= kept.push(url@));
        }
    }

    /// Move back one entry; returns the URL moved to, or `None` at the start.
    pub fn go_back(&mut self) -> (res: Option<&str>)
        requires
            old(self).current_index <= old(self).stack@.len(),
        ensures
            final(self).model() == spec_back(old(self).model()),
            match res {
                Some(u) => old(self).current_index > 0 && u@ == old(self).model().urls[
                    old(self).current_index - 1
                ],
                None => old(self).current_index == 0 && *final(self) == *old(self),
            },
    {
        if self.can_go_back() {
            self.current_index -= 1;
            Some(self.stack[self.current_index].as_str())
        } else {
            None
        }
    }

    /// Move forward one entry; returns the URL moved to, or `None` at the end.
    pub fn go_forward(&mut self) -> (res: Option<&str>)
        ensures
            final(self).model() == spec_forward(old(self).model()),
            match res {
                Some(u) => old(self).current_index + 1 < old(self).stack@.len() && u@
                    == old(self).model().urls[old(self).current_index + 1],
                None => old(self).current_index + 1 >= old(self).stack@.len() && *final(self)
                    == *old(self),
            },
    {
        let n = self.stack.len();
        if self.can_go_forward() {
            assert(self.current_index + 1 < n);
            self.current_index += 1;
            Some(self.stack[self.current_index].as_str())
        } else {
            None
        }
    }

    /// The current URL, if the index is within the history.
    pub fn current_url(&self) -> (res: Option<&str>)
        ensures
            match res {
                Some(u) => self.current_index < self.stack@.len() && u@ == self.model().urls[
                    self.current_index as int
                ],
                None => self.current_index >= self.stack@.len(),
            },
    {
        if self.current_index < self.stack.len() {
            Some(self.stack[self.current_index].as_str())
        } else {
            None
        }
    }
}

// ─── Tabs ────────────────────────────────────────────────────────

/// A browser tab: its id, URL, title, history, and the engine artifacts
/// of its page once loaded.
#[derive(Debug)]
pub struct Tab {
    pub id: TabId,
    pub url: String,
    pub title: String,
    pub history: NavigationHistory,
    pub page_resources: Option<PageResources>,
    pub dom: Option<Dom>,
    pub stylesheet: Option<Stylesheet>,
}

/// The title a new tab shows for a URL.
pub open spec fn tab_title(url: Seq<char>) -> Seq<char> {
    if url == "<sample>"@ {
        "Sample Page"@
    } else {
        url
    }
}

/// `t` is a tab just opened with this id at this URL: its history holds
/// only the URL and nothing is loaded yet.
pub open spec fn is_new_tab(t: Tab, id: TabId, url: Seq<char>) -> bool {
    &&& t.id == id
    &&& t.url@ == url
    &&& t.title@ == tab_title(url)
    &&& t.history.model().urls == seq![url]
    &&& t.history.model().current == 0
    &&& t.page_resources is None
    &&& t.dom is None
    &&& t.stylesheet is None
}

/// The model's length and index are the history's.
proof fn lemma_model_sizes(h: NavigationHistory)
    ensures
        h.model().urls.len() == h.stack@.len(),
        h.model().current == h.current_index,
{
}

/// A new tab's history index is within its history.
proof fn lemma_new_tab_history(t: Tab, id: TabId, url: Seq<char>)
    requires
        is_new_tab(t, id, url),
    ensures
        t.history.current_index < t.history.stack@.len(),
{
    lemma_model_sizes(t.history);
}

impl Tab {
    /// A tab with a starting URL and nothing loaded.
    pub fn new(id: TabId, url: &str) -> (res: Self)
        ensures
            is_new_tab(res, id, url@),
    {
        let title = if str_eq(url, "<sample>") {
            owned("Sample Page")
        } else {
            owned(url)
        };
        Tab {
            id,
            url: owned(url),
            title,
            history: NavigationHistory::new(url),
            page_resources: None,
            dom: None,
            stylesheet: None,
        }
    }
}

/// What the shell asks of its host after a change: nothing, or loading
/// the page of the tab at an index (its URL is the tab's `url`) and
/// handing the result to `set_page`.
#[derive(Debug, Clone, Copy, PartialEq, Eq, Structural)]
pub enum ShellAction {
    Nothing,
    LoadTab(usize),
}

/// The tabs of a browser window and which one is active. There is always
/// at least one tab.
pub struct TabManager {
    pub next_tab_id: u64,
    pub tabs: Vec<Tab>,
    pub active_tab_index: usize,
    pub loader: ResourceLoader,
}

/// A tab as the page loader leaves it when a load starts: the same tab
/// with its artifacts cleared.
pub open spec fn unloaded(before: Tab, after: Tab) -> bool {
    &&& after.id == before.id
    &&& after.url == before.url
    &&& after.title == before.title
    &&& after.history == before.history
    &&& after.page_resources is None
    &&& after.dom is None
    &&& after.stylesheet is None
}

// ─── What each operation does ────────────────────────────────────

/// The other tabs than the one at `keep` are the same in both, and so are
/// the active index, the next id, the loader and the number of tabs.
pub open spec fn others_kept(o: TabManager, n: TabManager, keep: int) -> bool {
    &&& n.loader == o.loader
    &&& n.tabs@.len() == o.tabs@.len()
    &&& n.active_tab_index == o.active_tab_index
    &&& n.next_tab_id == o.next_tab_id
    &&& forall|i: int| 0 <= i < o.tabs@.len() && i != keep ==> #[trigger] n.tabs@[i] == o.tabs@[i]
}

/// `n` is `o` with a new tab at `url` opened after the others and active.
pub open spec fn opened(o: TabManager, n: TabManager, url: Seq<char>) -> bool {
    &&& n.loader == o.loader
    &&& n.next_tab_id == o.next_tab_id + 1
    &&& n.tabs@.len() == o.tabs@.len() + 1
    &&& n.tabs@.take(o.tabs@.len() as int) == o.tabs@
    &&& is_new_tab(n.tabs@.last(), TabId(o.next_tab_id), url)
    &&& n.active_tab_index == o.tabs@.len()
}

/// `n` is `o` with the tab at `index` (which exists) closed. Closing the
/// only tab opens a sample tab in its place. The active index follows the
/// active tab when an earlier tab closes, and moves to the new last tab
/// when the active last tab closes.
pub open spec fn closed(o: TabManager, n: TabManager, index: int) -> bool {
    &&& n.loader == o.loader
    &&& if o.tabs@.len() == 1 {
        &&& n.tabs@.len() == 1
        &&& is_new_tab(n.tabs@[0], TabId(o.next_tab_id), "<sample>"@)
        &&& n.active_tab_index == 0
        &&& n.next_tab_id == o.next_tab_id + 1
    } else {
        &&& n.tabs@ == o.tabs@.remove(index)
        &&& n.next_tab_id == o.next_tab_id
        &&& n.active_tab_index == if index < o.active_tab_index {
            o.active_tab_index - 1
        } else if o.active_tab_index + 1 >= o.tabs@.len() {
            o.tabs@.len() - 2
        } else {
            o.active_tab_index as int
        }
    }
}

/// The active tab of `n` is the active tab of `o` with `url` as its URL
/// and title, `hist` as its history, and no artifacts; the others are kept.
pub open spec fn moved_to(o: TabManager, n: TabManager, url: Seq<char>, hist: HistoryModel) -> bool {
    let a = o.active_tab_index as int;
    &&& others_kept(o, n, a)
    &&& n.tabs@[a].id == o.tabs@[a].id
    &&& n.tabs@[a].url@ == url
    &&& n.tabs@[a].title@ == url
    &&& n.tabs@[a].history.model() == hist
    &&& n.tabs@[a].page_resources is None
    &&& n.tabs@[a].dom is None
    &&& n.tabs@[a].stylesheet is None
}

/// `n` holds the same tabs, active index, next id and loader as `o`.
pub open spec fn unchanged(o: TabManager, n: TabManager) -> bool {
    &&& n.tabs@ == o.tabs@
    &&& n.active_tab_index == o.active_tab_index
    &&& n.next_tab_id == o.next_tab_id
    &&& n.loader == o.loader
}

/// `n` is `o` after navigating the active tab to `url`.
pub open spec fn navigated(o: TabManager, n: TabManager, url: Seq<char>) -> bool {
    moved_to(o, n, url, spec_push(o.tabs@[o.active_tab_index as int].history.model(), url))
}

/// `n` is `o` after the active tab went back one entry, when it could.
pub open spec fn went_back(o: TabManager, n: TabManager) -> bool {
    let h = o.tabs@[o.active_tab_index as int].history.model();
    if h.current > 0 {
        moved_to(o, n, h.urls[h.current - 1], spec_back(h))
    } else {
        unchanged(o, n)
    }
}

/// `n` is `o` after the active tab went forward one entry, when it could.
pub open spec fn went_forward(o: TabManager, n: TabManager) -> bool {
    let h = o.tabs@[o.active_tab_index as int].history.model();
    if h.current + 1 < h.urls.len() {
        moved_to(o, n, h.urls[h.current + 1], spec_forward(h))
    } else {
        unchanged(o, n)
    }
}

/// `n` is `o` with the active tab's artifacts cleared for a reload.
pub open spec fn reloaded(o: TabManager, n: TabManager) -> bool {
    let a = o.active_tab_index as int;
    &&& others_kept(o, n, a)
    &&& unloaded(o.tabs@[a], n.tabs@[a])
}

impl TabManager {
    /// The id the next new tab gets.
    pub open spec fn next_id(&self) -> u64 {
        self.next_tab_id
    }

    /// At least one tab, the active index within the tabs, distinct tab ids
    /// all below the next id, every history's current entry within it, and
    /// a well-formed loader cache.
    pub open spec fn wf(&self) -> bool {
        let t = self.tabs@;
        &&& t.len() >= 1
        &&& self.active_tab_index < t.len()
        &&& forall|i: int| 0 <= i < t.len() ==> (#[trigger] t[i]).id.0 < self.next_id()
        &&& forall|i: int, j: int| 0 <= i < j < t.len() ==> (#[trigger] t[i]).id != (#[trigger] t[j]).id
        &&& forall|i: int|
            0 <= i < t.len() ==> (#[trigger] t[i]).history.current_index < t[i].history.stack@.len()
        &&& self.loader.cache.wf()
    }

    /// One tab, id 1, at the sample page.
    pub fn new() -> (res: Self)
        ensures
            res.wf(),
            res.tabs@.len() == 1,
            is_new_tab(res.tabs@[0], TabId(1), "<sample>"@),
            res.active_tab_index == 0,
            res.next_id() == 2,
    {
        let tab = Tab::new(TabId(1), "<sample>");
        let mut tabs: Vec<Tab> = Vec::new();
        tabs.push(tab);
        proof {
            lemma_new_tab_history(tabs@[0], TabId(1), "<sample>"@);
        }
        TabManager { next_tab_id: 2, tabs, active_tab_index: 0, loader: ResourceLoader::new() }
    }

    /// Open a tab at `url` after the others and make it active; its page
    /// is to be loaded next. Returns its id.
    pub fn new_tab(&mut self, url: &str) -> (res: TabId)
        requires
            old(self).wf(),
            old(self).next_id() < u64::MAX,
        ensures
            final(self).wf(),
            res == TabId(old(self).next_id()),
            opened(*old(self), *final(self), url@),
    {
        let tab_id = TabId(self.next_tab_id);
        self.next_tab_id = self.next_tab_id + 1;
        let tab = Tab::new(tab_id, url);
        self.tabs.push(tab);
        self.active_tab_index = self.tabs.len() - 1;
        assert(self.tabs@.take(old(self).tabs@.len() as int) =~= old(self).tabs@);
        proof {
            let t = self.tabs@;
            assert forall|i: int, j: int| 0 <= i < j < t.len() implies (#[trigger] t[i]).id != (
            #[trigger] t[j]).id by {
                assert(t[i] == old(self).tabs@[i]);
                if j < t.len() - 1 {
                    assert(t[j] == old(self).tabs@[j]);
                }
            }
            assert forall|i: int| 0 <= i < t.len() implies (#[trigger] t[i]).id.0 < self.next_id() by {
                if i < t.len() - 1 {
                    assert(t[i] == old(self).tabs@[i]);
                }
            }
            assert forall|i: int| 0 <= i < t.len() implies (
            #[trigger] t[i]).history.current_index < t[i].history.stack@.len() by {
                if i < t.len() - 1 {
                    assert(t[i] == old(self).tabs@[i]);
                } else {
                    lemma_new_tab_history(t[i], tab_id, url@);
                }
            }
        }
        tab_id
    }

    /// Close the tab at `index`; `false`, changing nothing, when there is
    /// none. Closing the only tab opens a sample tab, whose page is to be
    /// loaded next.
    pub fn close_tab(&mut self, index: usize) -> (res: bool)
        requires
            old(self).wf(),
            index == 0 && old(self).tabs@.len() == 1 ==> old(self).next_id() < u64::MAX,
        ensures
            final(self).wf(),
            res == (index < old(self).tabs@.len()),
            res ==> closed(*old(self), *final(self), index as int),
            !res ==> *final(self) == *old(self),
    {
        if index >= self.tabs.len() {
            return false;
        }
        let ghost before = self.tabs@;
        self.tabs.remove(index);
        if self.tabs.len() == 0 {
            let new_id = TabId(self.next_tab_id);
            self.next_tab_id = self.next_tab_id + 1;
            let default_tab = Tab::new(new_id, "<sample>");
            self.tabs.push(default_tab);
            self.active_tab_index = 0;
            proof {
                lemma_new_tab_history(self.tabs@[0], new_id, "<sample>"@);
            }
        } else {
            if index < self.active_tab_index {
                self.active_tab_index = self.active_tab_index - 1;
            } else if self.active_tab_index >= self.tabs.len() {
                self.active_tab_index = self.tabs.len() - 1;
            }
            proof {
                let t = self.tabs@;
                assert(t == before.remove(index as int));
                assert forall|i: int, j: int| 0 <= i < j < t.len() implies (#[trigger] t[i]).id != (
                #[trigger] t[j]).id by {
                    let a = if i < index { i } else { i + 1 };
                    let b = if j < index { j } else { j + 1 };
                    assert(t[i] == before[a]);
                    assert(t[j] == before[b]);
                }
                assert forall|i: int| 0 <= i < t.len() implies (#[trigger] t[i]).id.0 < self.next_id() by {
                    let a = if i < index { i } else { i + 1 };
                    assert(t[i] == before[a]);
                }
                assert forall|i: int| 0 <= i < t.len() implies (
                #[trigger] t[i]).history.current_index < t[i].history.stack@.len() by {
                    let a = if i < index { i } else { i + 1 };
                    assert(t[i] == before[a]);
                }
            }
        }
        true
    }

    /// Make the tab at `index` active; `false`, changing nothing, when
    /// there is none.
    pub fn switch_tab(&mut self, index: usize) -> (res: bool)
        requires
            old(self).wf(),
        ensures
            final(self).wf(),
            res == (index < old(self).tabs@.len()),
            *final(self) == (TabManager {
                active_tab_index: if res {
                    index
                } else {
                    old(self).active_tab_index
                },
                ..*old(self)
            }),
    {
        if index < self.tabs.len() {
            self.active_tab_index = index;
            true
        } else {
            false
        }
    }

    /// The active tab.
    pub fn active_tab(&self) -> (res: &Tab)
        requires
            self.active_tab_index < self.tabs@.len(),
        ensures
            *res == self.tabs@[self.active_tab_index as int],
    {
        &self.tabs[self.active_tab_index]
    }

    /// The active tab, for modification.
    pub fn active_tab_mut(&mut self) -> (res: &mut Tab)
        requires
            old(self).active_tab_index < old(self).tabs@.len(),
        ensures
            *res == old(self).tabs@[old(self).active_tab_index as int],
            final(self).tabs@ == old(self).tabs@.update(
                old(self).active_tab_index as int,
                *final(res),
            ),
            final(self).active_tab_index == old(self).active_tab_index,
            final(self).next_id() == old(self).next_id(),
    {
        let i = self.active_tab_index;
        &mut self.tabs[i]
    }

    /// Clear the active tab's artifacts before its page is loaded again.
    fn unload_active(&mut self)
        requires
            old(self).wf(),
        ensures
            final(self).wf(),
            reloaded(*old(self), *final(self)),
            final(self).loader == old(self).loader,
    {
        let i = self.active_tab_index;
        self.tabs[i].page_resources = None;
        self.tabs[i].dom = None;
        self.tabs[i].stylesheet = None;
        proof {
            let t = self.tabs@;
            assert forall|a: int, b: int| 0 <= a < b < t.len() implies (#[trigger] t[a]).id != (
            #[trigger] t[b]).id by {
                assert(t[a].id == old(self).tabs@[a].id);
                assert(t[b].id == old(self).tabs@[b].id);
            }
            assert forall|a: int| 0 <= a < t.len() implies (#[trigger] t[a]).id.0 < self.next_id() by {
                assert(t[a].id == old(self).tabs@[a].id);
            }
            assert forall|a: int| 0 <= a < t.len() implies (
            #[trigger] t[a]).history.current_index < t[a].history.stack@.len() by {
                assert(t[a].history == old(self).tabs@[a].history);
            }
        }
    }

    /// Point the active tab at `url` with the history `hist` already in
    /// place, and clear its artifacts.
    fn retarget_active(&mut self, url: &str)
        requires
            old(self).wf(),
        ensures
            final(self).wf(),
            moved_to(
                *old(self),
                *final(self),
                url@,
                old(self).tabs@[old(self).active_tab_index as int].history.model(),
            ),
    {
        let index = self.active_tab_index;
        self.tabs[index].url = owned(url);
        self.tabs[index].title = owned(url);
        self.unload_active();
    }

    /// Navigate the active tab to `url`: its URL and title become `url`,
    /// the URL is pushed on its history, and its page is to be loaded.
    pub fn navigate(&mut self, url: &str) -> (res: ShellAction)
        requires
            old(self).wf(),
        ensures
            final(self).wf(),
            navigated(*old(self), *final(self), url@),
            res == ShellAction::LoadTab(old(self).active_tab_index),
    {
        let index = self.active_tab_index;
        self.tabs[index].history.push_url(url);
        proof {
            let t = self.tabs@;
            assert forall|a: int, b: int| 0 <= a < b < t.len() implies (#[trigger] t[a]).id != (
            #[trigger] t[b]).id by {
                assert(t[a].id == old(self).tabs@[a].id);
                assert(t[b].id == old(self).tabs@[b].id);
            }
            assert forall|a: int| 0 <= a < t.len() implies (#[trigger] t[a]).id.0 < self.next_id() by {
                assert(t[a].id == old(self).tabs@[a].id);
            }
            assert forall|a: int| 0 <= a < t.len() implies (
            #[trigger] t[a]).history.current_index < t[a].history.stack@.len() by {
                if a != index {
                    assert(t[a] == old(self).tabs@[a]);
                } else {
                    let o = old(self).tabs@[a].history;
                    lemma_model_sizes(o);
                    lemma_push_is_current(o.model(), url@);
                    lemma_model_sizes(t[a].history);
                }
            }
        }
        self.retarget_active(url);
        ShellAction::LoadTab(index)
    }

    /// Go back one entry in the active tab's history: its URL and title
    /// become that entry and its page is to be loaded. At the first entry
    /// nothing changes.
    pub fn back(&mut self) -> (res: ShellAction)
        requires
            old(self).wf(),
        ensures
            final(self).wf(),
            went_back(*old(self), *final(self)),
            res == if old(self).tabs@[old(self).active_tab_index as int].history.current_index > 0 {
                ShellAction::LoadTab(old(self).active_tab_index)
            } else {
                ShellAction::Nothing
            },
    {
        let index = self.active_tab_index;
        let prev = match self.tabs[index].history.go_back() {
            Some(u) => Some(owned(u)),
            None => None,
        };
        match prev {
            Some(u) => {
                proof {
                    let oh = old(self).tabs@[index as int].history;
                    let nh = self.tabs@[index as int].history;
                    lemma_model_sizes(oh);
                    lemma_model_sizes(nh);
                    assert(self.tabs@.len() == old(self).tabs@.len());
                    assert forall|i: int| 0 <= i < old(self).tabs@.len() && i != index implies #[trigger] self.tabs@[i] == old(self).tabs@[i] by {}
                    self.lemma_history_step_keeps_wf(*old(self), index as int);
                }
                self.retarget_active(u.as_str());
                ShellAction::LoadTab(index)
            },
            None => {
                assert(self.tabs@ =~= old(self).tabs@);
                ShellAction::Nothing
            },
        }
    }

    /// Go forward one entry in the active tab's history: its URL and title
    /// become that entry and its page is to be loaded. At the last entry
    /// nothing changes.
    pub fn forward(&mut self) -> (res: ShellAction)
        requires
            old(self).wf(),
        ensures
            final(self).wf(),
            went_forward(*old(self), *final(self)),
            res == if old(self).tabs@[old(self).active_tab_index as int].history.current_index + 1
                < old(self).tabs@[old(self).active_tab_index as int].history.stack@.len() {
                ShellAction::LoadTab(old(self).active_tab_index)
            } else {
                ShellAction::Nothing
            },
    {
        let index = self.active_tab_index;
        let next = match self.tabs[index].history.go_forward() {
            Some(u) => Some(owned(u)),
            None => None,
        };
        match next {
            Some(u) => {
                proof {
                    let oh = old(self).tabs@[index as int].history;
                    let nh = self.tabs@[index as int].history;
                    lemma_model_sizes(oh);
                    lemma_model_sizes(nh);
                    assert(self.tabs@.len() == old(self).tabs@.len());
                    assert forall|i: int| 0 <= i < old(self).tabs@.len() && i != index implies #[trigger] self.tabs@[i] == old(self).tabs@[i] by {}
                    self.lemma_history_step_keeps_wf(*old(self), index as int);
                }
                self.retarget_active(u.as_str());
                ShellAction::LoadTab(index)
            },
            None => {
                assert(self.tabs@ =~= old(self).tabs@);
                ShellAction::Nothing
            },
        }
    }

    /// A history step on the active tab, which keeps its index within the
    /// history, keeps the manager well-formed.
    proof fn lemma_history_step_keeps_wf(&self, o: TabManager, index: int)
        requires
            o.wf(),
            index == o.active_tab_index,
            self.tabs@.len() == o.tabs@.len(),
            self.active_tab_index == o.active_tab_index,
            self.next_tab_id == o.next_tab_id,
            self.loader == o.loader,
            forall|i: int| 0 <= i < o.tabs@.len() && i != index ==> #[trigger] self.tabs@[i] == o.tabs@[i],
            self.tabs@[index].id == o.tabs@[index].id,
            self.tabs@[index].history.current_index < self.tabs@[index].history.stack@.len(),
        ensures
            self.wf(),
    {
        let t = self.tabs@;
        assert forall|a: int, b: int| 0 <= a < b < t.len() implies (#[trigger] t[a]).id != (
        #[trigger] t[b]).id by {
            assert(t[a].id == o.tabs@[a].id);
            assert(t[b].id == o.tabs@[b].id);
        }
        assert forall|a: int| 0 <= a < t.len() implies (#[trigger] t[a]).id.0 < self.next_id() by {
            assert(t[a].id == o.tabs@[a].id);
        }
        assert forall|a: int| 0 <= a < t.len() implies (
        #[trigger] t[a]).history.current_index < t[a].history.stack@.len() by {
            if a != index {
                assert(t[a] == o.tabs@[a]);
            }
        }
    }

    /// Reload the active tab: its artifacts are cleared and its page is to
    /// be loaded again.
    pub fn reload(&mut self) -> (res: ShellAction)
        requires
            old(self).wf(),
        ensures
            final(self).wf(),
            reloaded(*old(self), *final(self)),
            res == ShellAction::LoadTab(old(self).active_tab_index),
    {
        let index = self.active_tab_index;
        self.unload_active();
        ShellAction::LoadTab(index)
    }

    /// Attach the loaded page of the tab at `index`: its resources, DOM
    /// and stylesheet.
    pub fn set_page(&mut self, index: usize, page: PageResources, dom: Dom, stylesheet: Stylesheet)
        requires
            old(self).wf(),
            index < old(self).tabs@.len(),
        ensures
            final(self).wf(),
            others_kept(*old(self), *final(self), index as int),
            final(self).tabs@[index as int] == (Tab {
                page_resources: Some(page),
                dom: Some(dom),
                stylesheet: Some(stylesheet),
                ..old(self).tabs@[index as int]
            }),
    {
        self.tabs[index].page_resources = Some(page);
        self.tabs[index].dom = Some(dom);
        self.tabs[index].stylesheet = Some(stylesheet);
        proof {
            let t = self.tabs@;
            assert forall|a: int, b: int| 0 <= a < b < t.len() implies (#[trigger] t[a]).id != (
            #[trigger] t[b]).id by {
                assert(t[a].id == old(self).tabs@[a].id);
                assert(t[b].id == old(self).tabs@[b].id);
            }
            assert forall|a: int| 0 <= a < t.len() implies (#[trigger] t[a]).id.0 < self.next_id() by {
                assert(t[a].id == old(self).tabs@[a].id);
            }
            assert forall|a: int| 0 <= a < t.len() implies (
            #[trigger] t[a]).history.current_index < t[a].history.stack@.len() by {
                assert(t[a].history == old(self).tabs@[a].history);
            }
        }
    }

    /// Apply a shell event and say which page, if any, is to be loaded.
    pub fn handle_event(&mut self, event: ShellEvent) -> (res: ShellAction)
        requires
            old(self).wf(),
            event is NewTab ==> old(self).next_id() < u64::MAX,
            (event matches ShellEvent::CloseTab(i) && i == 0 && old(self).tabs@.len() == 1) ==> old(
            self).next_id() < u64::MAX,
        ensures
            final(self).wf(),
            match event {
                ShellEvent::NavigateTo(url) => navigated(*old(self), *final(self), url@) && res
                    == ShellAction::LoadTab(old(self).active_tab_index),
                ShellEvent::NewTab(url) => opened(*old(self), *final(self), url@) && res
                    == ShellAction::LoadTab(old(self).tabs@.len() as usize),
                ShellEvent::CloseTab(i) => if i < old(self).tabs@.len() {
                    closed(*old(self), *final(self), i as int) && res == if old(self).tabs@.len()
                        == 1 {
                        ShellAction::LoadTab(0)
                    } else {
                        ShellAction::Nothing
                    }
                } else {
                    *final(self) == *old(self) && res == ShellAction::Nothing
                },
                ShellEvent::SwitchTab(i) => *final(self) == (TabManager {
                    active_tab_index: if i < old(self).tabs@.len() {
                        i
                    } else {
                        old(self).active_tab_index
                    },
                    ..*old(self)
                }) && res == ShellAction::Nothing,
                ShellEvent::GoBack => went_back(*old(self), *final(self)) && res == if old(
                self).tabs@[old(self).active_tab_index as int].history.current_index > 0 {
                    ShellAction::LoadTab(old(self).active_tab_index)
                } else {
                    ShellAction::Nothing
                },
                ShellEvent::GoForward => went_forward(*old(self), *final(self)) && res == if old(
                self).tabs@[old(self).active_tab_index as int].history.current_index + 1 < old(
                self).tabs@[old(self).active_tab_index as int].history.stack@.len() {
                    ShellAction::LoadTab(old(self).active_tab_index)
                } else {
                    ShellAction::Nothing
                },
                ShellEvent::Reload => reloaded(*old(self), *final(self)) && res
                    == ShellAction::LoadTab(old(self).active_tab_index),
            },
    {
        match event {
            ShellEvent::NavigateTo(url) => self.navigate(url.as_str()),
            ShellEvent::NewTab(url) => {
                self.new_tab(url.as_str());
                ShellAction::LoadTab(self.active_tab_index)
            },
            ShellEvent::CloseTab(index) => {
                let only = self.tabs.len() == 1;
                if self.close_tab(index) && only {
                    ShellAction::LoadTab(0)
                } else {
                    ShellAction::Nothing
                }
            },
            ShellEvent::SwitchTab(index) => {
                self.switch_tab(index);
                ShellAction::Nothing
            },
            ShellEvent::GoBack => self.back(),
            ShellEvent::GoForward => self.forward(),
            ShellEvent::Reload => self.reload(),
        }
    }
}

/// Law: closing a tab other than the active one keeps the same tab
/// active.
pub proof fn lemma_close_keeps_active(o: TabManager, n: TabManager, index: int)
    requires
        o.wf(),
        0 <= index < o.tabs@.len(),
        index != o.active_tab_index,
        closed(o, n, index),
    ensures
        n.tabs@[n.active_tab_index as int].id == o.tabs@[o.active_tab_index as int].id,
{
    if index < o.active_tab_index {
        assert(n.tabs@[n.active_tab_index as int] == o.tabs@[o.active_tab_index as int]);
    } else {
        assert(n.tabs@[n.active_tab_index as int] == o.tabs@[o.active_tab_index as int]);
    }
}

} // verus!
