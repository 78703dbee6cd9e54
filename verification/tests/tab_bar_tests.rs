use creeper_term::ui::tab_bar::{Message, TabBar};

fn ids(t: &TabBar) -> Vec<usize> {
    t.tabs().iter().map(|tab| tab.id).collect()
}

#[test]
fn new_tab_bar_has_one_terminal() {
    let t = TabBar::new();
    assert_eq!(ids(&t), vec![1]);
    assert_eq!(t.tabs()[0].title, "Terminal 1");
    assert_eq!(t.active_tab_id(), 1);
}

#[test]
fn new_tab_is_numbered_and_becomes_active() {
    let mut t = TabBar::new();
    assert_eq!(t.update(Message::NewTab), Some(2));
    assert_eq!(ids(&t), vec![1, 2]);
    assert_eq!(t.tabs()[1].title, "Terminal 2");
    assert_eq!(t.active_tab_id(), 2);
    for _ in 0..9 {
        t.update(Message::NewTab);
    }
    assert_eq!(t.tabs()[10].title, "Terminal 11");
    assert_eq!(t.active_tab_id(), 11);
}

#[test]
fn clicking_a_tab_activates_it() {
    let mut t = TabBar::new();
    t.update(Message::NewTab);
    assert_eq!(t.update(Message::TabClicked(0)), Some(1));
    assert_eq!(t.active_tab_id(), 1);
    assert_eq!(t.update(Message::TabClicked(5)), None);
    assert_eq!(t.active_tab_id(), 1);
}

#[test]
fn closing_tabs() {
    let mut t = TabBar::new();
    // The last tab cannot be closed.
    assert_eq!(t.update(Message::CloseTab(0)), None);
    assert_eq!(ids(&t), vec![1]);
    t.update(Message::NewTab);
    t.update(Message::NewTab);
    // Active is the third tab; closing it makes the new last tab active.
    assert_eq!(t.update(Message::CloseTab(2)), Some(2));
    assert_eq!(ids(&t), vec![1, 2]);
    t.update(Message::TabClicked(0));
    assert_eq!(t.update(Message::CloseTab(1)), Some(1));
    assert_eq!(ids(&t), vec![1]);
    assert_eq!(t.update(Message::CloseTab(3)), None);
}

#[test]
fn new_tab_number_follows_the_count() {
    let mut t = TabBar::new();
    t.update(Message::NewTab);
    t.update(Message::CloseTab(0));
    assert_eq!(ids(&t), vec![2]);
    assert_eq!(t.update(Message::NewTab), Some(2));
    assert_eq!(ids(&t), vec![2, 2]);
}

#[test]
fn a_reported_tab_is_the_active_one() {
    let mut t = TabBar::new();
    let messages = [
        Message::NewTab,
        Message::NewTab,
        Message::TabClicked(1),
        Message::CloseTab(0),
        Message::TabClicked(9),
        Message::NewTab,
        Message::CloseTab(2),
        Message::CloseTab(7),
    ];
    for m in messages {
        let before = ids(&t);
        let before_active = t.active_tab_id();
        match t.update(m) {
            Some(id) => assert_eq!(t.active_tab_id(), id),
            None => {
                assert_eq!(ids(&t), before);
                assert_eq!(t.active_tab_id(), before_active);
            },
        }
        assert!(!t.tabs().is_empty());
    }
}
