//! The row of tabs above the terminal.
use vstd::prelude::*;

use crate::text::{decimal, push_decimal};

verus! {

/// A tab: its number and the text shown on it.
#[derive(Debug, Clone)]
pub struct Tab {
    pub id: usize,
    pub title: String,
}

/// What a tab shows.
#[verifier::ext_equal]
pub struct TabView {
    pub id: usize,
    pub title: Seq<char>,
}

impl View for Tab {
    type V = TabView;

    open spec fn view(&self) -> TabView {
        TabView { id: self.id, title: self.title@ }
    }
}

/// What the user asks of the tab row.
#[derive(Debug, Clone, Copy)]
pub enum Message {
    TabClicked(usize),
    NewTab,
    CloseTab(usize),
}

/// The tabs and which of them is active.
#[verifier::ext_equal]
pub struct TabBarView {
    pub tabs: Seq<TabView>,
    pub active: usize,
}

/// A tab row has at least one tab, the active one is among them, and every tab
/// is numbered from 1 up.
pub open spec fn tab_bar_wf(v: TabBarView) -> bool {
    &&& v.tabs.len() > 0
    &&& v.active < v.tabs.len()
    &&& forall|i: int| 0 <= i < v.tabs.len() ==> #[trigger] v.tabs[i].id >= 1
}

/// The title of tab `id`: `Terminal ` and the number.
pub open spec fn tab_title(id: nat) -> Seq<char> {
    "Terminal "@ + decimal(id)
}

/// What a message does to the tab row, and the number of the tab that is active
/// after it, if it changed anything.
pub open spec fn tab_bar_update(v: TabBarView, m: Message) -> (TabBarView, Option<usize>) {
    match m {
        Message::TabClicked(i) => if i < v.tabs.len() {
            (TabBarView { active: i, ..v }, Some(v.tabs[i as int].id))
        } else {
            (v, None)
        },
        Message::NewTab => {
            let id = v.tabs.len() + 1;
            let tabs = v.tabs.push(TabView { id: id as usize, title: tab_title(id as nat) });
            (TabBarView { tabs, active: (tabs.len() - 1) as usize }, Some(id as usize))
        },
        Message::CloseTab(i) => if v.tabs.len() > 1 && i < v.tabs.len() {
            let tabs = v.tabs.remove(i as int);
            let active = if v.active >= tabs.len() {
                (tabs.len() - 1) as usize
            } else {
                v.active
            };
            (TabBarView { tabs, active }, Some(tabs[active as int].id))
        } else {
            (v, None)
        },
    }
}

/// The row of tabs.
#[derive(Debug, Clone)]
pub struct TabBar {
    tabs: Vec<Tab>,
    active_tab: usize,
}

/// The views of a sequence of tabs.
pub open spec fn tab_views(q: Seq<Tab>) -> Seq<TabView> {
    q.map_values(|t: Tab| t@)
}

impl View for TabBar {
    type V = TabBarView;

    closed spec fn view(&self) -> TabBarView {
        TabBarView { tabs: tab_views(self.tabs@), active: self.active_tab }
    }
}

impl TabBar {
    fn titled(id: usize) -> (t: Tab)
        ensures
            t@ == (TabView { id, title: tab_title(id as nat) }),
    {
        let mut title = "Terminal ".to_owned();
        push_decimal(&mut title, id);
        Tab { id, title }
    }

    /// One tab, `Terminal 1`, active.
    pub fn new() -> (t: Self)
        ensures
            tab_bar_wf(t@),
            t@ == (TabBarView {
                tabs: seq![TabView { id: 1, title: tab_title(1) }],
                active: 0,
            }),
    {
        let mut tabs: Vec<Tab> = Vec::new();
        tabs.push(Self::titled(1));
        let t = TabBar { tabs, active_tab: 0 };
        assert(t@ =~= TabBarView { tabs: seq![TabView { id: 1, title: tab_title(1) }], active: 0 });
        t
    }

    /// Apply a message: activate a tab, open one, or close one (never the last).
    /// Returns the number of the tab that is active afterwards when something
    /// changed.
    pub fn update(&mut self, message: Message) -> (r: Option<usize>)
        requires
            tab_bar_wf(old(self)@),
            message is NewTab ==> old(self)@.tabs.len() + 1 < usize::MAX,
        ensures
            (final(self)@, r) == tab_bar_update(old(self)@, message),
            tab_bar_wf(final(self)@),
    {
        match message {
            Message::TabClicked(index) => {
                if index < self.tabs.len() {
                    self.active_tab = index;
                    assert(self@ =~= tab_bar_update(old(self)@, message).0);
                    Some(self.tabs[index].id)
                } else {
                    None
                }
            },
            Message::NewTab => {
                let id = self.tabs.len() + 1;
                let t = Self::titled(id);
                let mut tabs: Vec<Tab> = Vec::new();
                std::mem::swap(&mut tabs, &mut self.tabs);
                tabs.push(t);
                assert(tab_views(tabs@) =~= tab_views(old(self).tabs@).push(t@));
                let active = tabs.len() - 1;
                *self = TabBar { tabs, active_tab: active };
                assert(self@ =~= tab_bar_update(old(self)@, message).0);
                Some(id)
            },
            Message::CloseTab(index) => {
                if self.tabs.len() > 1 && index < self.tabs.len() {
                    let previous = self.active_tab;
                    let mut tabs: Vec<Tab> = Vec::new();
                    std::mem::swap(&mut tabs, &mut self.tabs);
                    tabs.remove(index);
                    assert(tab_views(tabs@) =~= tab_views(old(self).tabs@).remove(index as int));
                    let active = if previous >= tabs.len() {
                        tabs.len() - 1
                    } else {
                        previous
                    };
                    *self = TabBar { tabs, active_tab: active };
                    assert(self@ =~= tab_bar_update(old(self)@, message).0);
                    Some(self.tabs[self.active_tab].id)
                } else {
                    None
                }
            },
        }
    }

    /// The number of the active tab.
    pub fn active_tab_id(&self) -> (r: usize)
        requires
            tab_bar_wf(self@),
        ensures
            r == self@.tabs[self@.active as int].id,
    {
        self.tabs[self.active_tab].id
    }

    /// The tabs, from left to right.
    pub fn tabs(&self) -> (r: &[Tab])
        ensures
            tab_views(r@) == self@.tabs,
    {
        self.tabs.as_slice()
    }
}

/// Closing a tab (not the only one) removes exactly that tab, and the active
/// position stays where it was unless it now lies past the last tab, in which case
/// the last tab becomes active. So closing a tab after the active one keeps the same
/// tab active, and closing one before it moves the active position onto the tab
/// that followed. The tab reported is the active one.
pub proof fn law_close_tab_keeps_position(v: TabBarView, i: usize)
    requires
        tab_bar_wf(v),
        v.tabs.len() > 1,
        i < v.tabs.len(),
    ensures
        ({
            let (w, r) = tab_bar_update(v, Message::CloseTab(i));
            &&& w.tabs.len() == v.tabs.len() - 1
            &&& forall|k: int| 0 <= k < i ==> #[trigger] w.tabs[k] == v.tabs[k]
            &&& forall|k: int| i <= k < w.tabs.len() ==> #[trigger] w.tabs[k] == v.tabs[k + 1]
            &&& w.active == if v.active <= v.tabs.len() - 2 {
                v.active as int
            } else {
                v.tabs.len() - 2
            }
            &&& i > v.active ==> w.tabs[w.active as int] == v.tabs[v.active as int]
            &&& r == Some(w.tabs[w.active as int].id)
        }),
{
}

/// Every message keeps the tab row in good order; when a message reports a tab,
/// that tab is the active one afterwards, and a message that reports none
/// changes nothing.
pub proof fn law_tab_bar_reports_active(v: TabBarView, m: Message)
    requires
        tab_bar_wf(v),
        m is NewTab ==> v.tabs.len() + 1 <= usize::MAX,
    ensures
        tab_bar_wf(tab_bar_update(v, m).0),
        tab_bar_update(v, m).1 matches Some(id) ==> tab_bar_update(v, m).0.tabs[tab_bar_update(
            v,
            m,
        ).0.active as int].id == id,
        tab_bar_update(v, m).1 is None ==> tab_bar_update(v, m).0 == v,
{
    match m {
        Message::CloseTab(i) => {
            if v.tabs.len() > 1 && i < v.tabs.len() {
                let tabs = v.tabs.remove(i as int);
                assert forall|k: int| 0 <= k < tabs.len() implies #[trigger] tabs[k].id >= 1 by {
                    if k < i {
                        assert(tabs[k] == v.tabs[k]);
                    } else {
                        assert(tabs[k] == v.tabs[k + 1]);
                    }
                }
            }
        },
        Message::NewTab => {
            let id = v.tabs.len() + 1;
            let tabs = v.tabs.push(TabView { id: id as usize, title: tab_title(id as nat) });
            assert forall|k: int| 0 <= k < tabs.len() implies #[trigger] tabs[k].id >= 1 by {
                if k < v.tabs.len() {
                    assert(tabs[k] == v.tabs[k]);
                }
            }
        },
        _ => {},
    }
}

} // verus!
