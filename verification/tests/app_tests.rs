use creeper_term::app::{
    translate_key, Action, AppState, ContextMenuItem, Event, Fault, Key, NamedKey, Selection,
    SshDialogField,
};
use creeper_term::terminal::buffer::Buffer;
use creeper_term::terminal::parser::Parser;
use creeper_term::ui::tab_bar::Message;

fn start() -> AppState {
    AppState::new(100).0
}

fn row(s: &AppState, tab: usize, y: usize) -> String {
    s.terminals[tab].buffer.lines()[y].cells.iter().map(|c| c.char).collect()
}

fn feed(s: &mut AppState, bytes: &[u8]) -> Action {
    s.update(Event::PollPty { tab: 0, output: vec![bytes.to_vec()] })
}

fn key(s: &mut AppState, k: Key, text: Option<&str>) -> Action {
    s.update(Event::KeyPressed { key: k, text: text.map(|t| t.to_string()) })
}

fn sent(a: &Action) -> Option<(usize, Vec<u8>)> {
    match a {
        Action::Send { tab, bytes } => Some((*tab, bytes.clone())),
        _ => None,
    }
}

fn clipboard(a: &Action) -> Option<String> {
    match a {
        Action::WriteClipboard(t) => Some(t.clone()),
        _ => None,
    }
}

#[test]
fn application_starts_with_one_terminal() {
    let (s, a) = AppState::new(100);
    assert!(matches!(a, Action::OpenTerminal { tab: 0, cols: 80, rows: 24, poll_after_ms: 100 }));
    assert_eq!(s.terminals.len(), 1);
    assert_eq!(s.active_tab, 0);
    assert_eq!(s.title, "CreeperTerm");
    assert_eq!(s.terminals[0].title, "Terminal");
    assert_eq!(s.terminals[0].buffer.viewport_width(), 80);
    assert_eq!(s.terminals[0].buffer.viewport_height(), 24);
    assert_eq!(s.tab_bar.active_tab_id(), 1);
    assert!(s.selection.is_none() && s.context_menu.is_none() && s.ssh_dialog.is_none());
    assert!(s.cursor_blink_state);
    assert_eq!(s.scroll_buffer_size, 100);
}

#[test]
fn polled_output_is_parsed_into_its_terminal() {
    let mut s = start();
    let a = s.update(Event::PollPty {
        tab: 0,
        output: vec![b"h".to_vec(), b"i\x1b]0;".to_vec(), b"T\x07".to_vec()],
    });
    assert!(matches!(a, Action::Poll { tab: 0, after_ms: 16 }));
    assert!(row(&s, 0, 0).starts_with("hi "));
    assert_eq!(s.terminals[0].parser.title(), "T");
}

#[test]
fn polling_a_missing_tab_changes_nothing() {
    let mut s = start();
    let a = s.update(Event::PollPty { tab: 3, output: vec![b"x".to_vec()] });
    assert!(matches!(a, Action::Poll { tab: 0, after_ms: 16 }));
    assert_eq!(row(&s, 0, 0), " ".repeat(80));
}

#[test]
fn deleting_every_line_keeps_the_screen() {
    let mut s = start();
    let a = feed(&mut s, b"x\x1b[24M\x1b[5;1H");
    assert!(matches!(a, Action::Poll { tab: 0, after_ms: 16 }));
    assert_eq!(s.terminals[0].buffer.lines().len(), 24);
    assert_eq!(row(&s, 0, 0), " ".repeat(80));
    assert_eq!(s.terminals[0].buffer.cursor_position(), (0, 4));
}

#[test]
fn keys_are_sent_to_the_active_terminal() {
    let mut s = start();
    assert_eq!(sent(&key(&mut s, Key::Named(NamedKey::Enter), None)), Some((0, vec![13])));
    assert_eq!(sent(&key(&mut s, Key::Other, Some("a"))), Some((0, b"a".to_vec())));
    assert_eq!(sent(&key(&mut s, Key::Other, Some("\u{3}"))), Some((0, vec![3])));
    assert!(matches!(key(&mut s, Key::Other, Some("\u{e9}")), Action::Nothing));
    assert!(matches!(key(&mut s, Key::Other, Some("\u{7f}")), Action::Nothing));
    assert!(matches!(key(&mut s, Key::Other, Some("ab")), Action::Nothing));
    assert!(matches!(key(&mut s, Key::Other, None), Action::Nothing));
}

#[test]
fn a_key_closes_the_context_menu() {
    let mut s = start();
    s.update(Event::MouseRightClicked);
    assert!(s.context_menu.is_some());
    key(&mut s, Key::Other, None);
    assert!(s.context_menu.is_none());
}

#[test]
fn keys_are_ignored_while_the_ssh_form_is_open() {
    let mut s = start();
    s.update(Event::MouseRightClicked);
    s.update(Event::ShowSshDialog);
    assert!(matches!(key(&mut s, Key::Named(NamedKey::Enter), None), Action::Nothing));
    assert!(s.context_menu.is_some());
}

#[test]
fn key_translation_table() {
    let cases: Vec<(NamedKey, &[u8])> = vec![
        (NamedKey::Enter, b"\r"),
        (NamedKey::Backspace, b"\x7f"),
        (NamedKey::Tab, b"\t"),
        (NamedKey::Escape, b"\x1b"),
        (NamedKey::ArrowUp, b"\x1b[A"),
        (NamedKey::ArrowDown, b"\x1b[B"),
        (NamedKey::ArrowRight, b"\x1b[C"),
        (NamedKey::ArrowLeft, b"\x1b[D"),
        (NamedKey::Home, b"\x1b[H"),
        (NamedKey::End, b"\x1b[F"),
        (NamedKey::PageUp, b"\x1b[5~"),
        (NamedKey::PageDown, b"\x1b[6~"),
        (NamedKey::Delete, b"\x1b[3~"),
        (NamedKey::Insert, b"\x1b[2~"),
        (NamedKey::F1, b"\x1b[11~"),
        (NamedKey::F2, b"\x1b[12~"),
        (NamedKey::F3, b"\x1b[13~"),
        (NamedKey::F4, b"\x1b[14~"),
        (NamedKey::F5, b"\x1b[15~"),
        (NamedKey::F6, b"\x1b[17~"),
        (NamedKey::F7, b"\x1b[18~"),
        (NamedKey::F8, b"\x1b[19~"),
        (NamedKey::F9, b"\x1b[20~"),
        (NamedKey::F10, b"\x1b[21~"),
        (NamedKey::F11, b"\x1b[23~"),
        (NamedKey::F12, b"\x1b[24~"),
    ];
    for (k, bytes) in cases {
        assert_eq!(translate_key(Key::Named(k), Some("x")), bytes.to_vec());
    }
    assert_eq!(translate_key(Key::Other, Some(" ")), b" ".to_vec());
    assert_eq!(translate_key(Key::Other, Some("~")), b"~".to_vec());
    assert!(translate_key(Key::Other, Some("")).is_empty());
}

#[test]
fn new_tab_opens_a_terminal_and_activates_it() {
    let mut s = start();
    let a = s.update(Event::TabBar(Message::NewTab));
    assert!(matches!(a, Action::OpenTerminal { tab: 1, cols: 80, rows: 24, poll_after_ms: 100 }));
    assert_eq!(s.terminals.len(), 2);
    assert_eq!(s.active_tab, 1);
    assert_eq!(s.tab_bar.active_tab_id(), 2);
}

#[test]
fn clicking_and_closing_tabs_picks_the_terminal() {
    let mut s = start();
    s.update(Event::TabBar(Message::NewTab));
    s.update(Event::MouseClicked { col: 1, row: 1 });
    assert!(matches!(s.update(Event::TabBar(Message::TabClicked(0))), Action::Nothing));
    assert_eq!(s.active_tab, 0);
    assert!(s.selection.is_none());
    s.update(Event::TabBar(Message::CloseTab(1)));
    assert_eq!(s.active_tab, 0);
    assert_eq!(s.terminals.len(), 2);
    // A click outside the row of tabs changes nothing.
    s.update(Event::MouseClicked { col: 2, row: 2 });
    s.update(Event::TabBar(Message::TabClicked(4)));
    assert!(s.selection.is_some());
}

#[test]
fn selection_is_copied_in_either_direction() {
    let mut s = start();
    feed(&mut s, b"hello");
    s.update(Event::MouseClicked { col: 1, row: 0 });
    s.update(Event::MouseMoved { col: 3, row: 0 });
    assert_eq!(clipboard(&s.update(Event::CopySelection)).as_deref(), Some("ell"));
    s.update(Event::MouseClicked { col: 3, row: 0 });
    s.update(Event::MouseMoved { col: 1, row: 0 });
    assert_eq!(clipboard(&s.update(Event::Copy)).as_deref(), Some("ell"));
}

#[test]
fn selection_over_rows_joins_them_with_line_breaks() {
    let mut s = start();
    feed(&mut s, b"ab\r\ncd");
    s.update(Event::MouseClicked { col: 0, row: 1 });
    s.update(Event::MouseMoved { col: 1, row: 0 });
    let expected = format!("b{}\nc", " ".repeat(78));
    assert_eq!(clipboard(&s.update(Event::CopySelection)), Some(expected));
}

#[test]
fn copying_without_text_does_nothing() {
    let mut s = start();
    assert!(matches!(s.update(Event::CopySelection), Action::Nothing));
    s.update(Event::MouseClicked { col: 0, row: 50 });
    s.update(Event::MouseMoved { col: 5, row: 60 });
    assert!(matches!(s.update(Event::CopySelection), Action::Nothing));
}

#[test]
fn selection_starting_past_the_line_halts_copy() {
    let mut s = start();
    s.update(Event::MouseClicked { col: 100, row: 0 });
    s.update(Event::MouseMoved { col: 120, row: 0 });
    assert!(matches!(s.update(Event::CopySelection), Action::Halt(Fault::SelectionOutsideLine)));
}

#[test]
fn releasing_where_clicked_drops_the_selection() {
    let mut s = start();
    s.update(Event::MouseClicked { col: 4, row: 2 });
    s.update(Event::MouseReleased);
    assert!(s.selection.is_none());
    s.update(Event::MouseClicked { col: 4, row: 2 });
    s.update(Event::MouseMoved { col: 6, row: 2 });
    s.update(Event::MouseReleased);
    let sel = s.selection.unwrap();
    assert_eq!((sel.start, sel.end), ((4, 2), (6, 2)));
    // Moving without a selection selects nothing.
    let mut s = start();
    s.update(Event::MouseMoved { col: 6, row: 2 });
    assert!(s.selection.is_none());
}

#[test]
fn select_all_covers_the_viewport() {
    let mut s = start();
    s.update(Event::SelectAll);
    let sel = s.selection.unwrap();
    assert_eq!((sel.start, sel.end), ((0, 0), (79, 23)));
}

#[test]
fn clear_blanks_the_screen_and_drops_the_selection() {
    let mut s = start();
    feed(&mut s, b"text");
    s.update(Event::SelectAll);
    assert!(matches!(s.update(Event::Clear), Action::Nothing));
    assert_eq!(row(&s, 0, 0), " ".repeat(80));
    assert_eq!(s.terminals[0].buffer.cursor_position(), (0, 0));
    assert!(s.selection.is_none());
}

#[test]
fn resize_has_at_least_one_cell_each_way() {
    let mut s = start();
    s.update(Event::Resized { cols: 100, rows: 30 });
    assert_eq!(s.terminals[0].buffer.viewport_width(), 100);
    assert_eq!(s.terminals[0].buffer.viewport_height(), 30);
    s.update(Event::Resized { cols: 0, rows: 0 });
    assert_eq!(s.terminals[0].buffer.viewport_width(), 1);
    assert_eq!(s.terminals[0].buffer.viewport_height(), 1);
}

#[test]
fn paste_sends_the_text() {
    let mut s = start();
    assert_eq!(sent(&s.update(Event::Paste("ls -l\n".to_string()))), Some((0, b"ls -l\n".to_vec())));
    assert_eq!(
        sent(&s.update(Event::Paste("\u{e9}".to_string()))),
        Some((0, "\u{e9}".as_bytes().to_vec()))
    );
    assert!(matches!(s.update(Event::PasteFromClipboard), Action::ReadClipboard));
}

#[test]
fn context_menu_actions() {
    let mut s = start();
    s.update(Event::MouseRightClicked);
    assert_eq!(
        s.context_menu.clone(),
        Some(vec![
            ContextMenuItem::Copy,
            ContextMenuItem::Paste,
            ContextMenuItem::SelectAll,
            ContextMenuItem::Clear
        ])
    );
    s.update(Event::ContextMenuAction(ContextMenuItem::SelectAll));
    assert!(s.context_menu.is_none());
    assert!(s.selection.is_some());
    s.update(Event::MouseRightClicked);
    assert!(matches!(s.update(Event::ContextMenuAction(ContextMenuItem::Paste)), Action::ReadClipboard));
    s.update(Event::MouseRightClicked);
    s.update(Event::ContextMenuAction(ContextMenuItem::Clear));
    assert!(s.selection.is_none());
    s.update(Event::MouseRightClicked);
    s.update(Event::CloseContextMenu);
    assert!(s.context_menu.is_none());
    feed(&mut s, b"abc");
    s.update(Event::MouseClicked { col: 0, row: 0 });
    s.update(Event::MouseMoved { col: 1, row: 0 });
    let a = s.update(Event::ContextMenuAction(ContextMenuItem::Copy));
    assert_eq!(clipboard(&a).as_deref(), Some("ab"));
}

#[test]
fn ssh_form_connects_with_what_was_typed() {
    let mut s = start();
    assert!(matches!(s.update(Event::SshConnect), Action::Nothing));
    s.update(Event::ShowSshDialog);
    assert_eq!(s.ssh_dialog.as_ref().unwrap().port, "22");
    s.update(Event::SshDialogInput(SshDialogField::Host, "example.com".to_string()));
    s.update(Event::SshDialogInput(SshDialogField::Port, "2222".to_string()));
    s.update(Event::SshDialogInput(SshDialogField::Username, "me".to_string()));
    s.update(Event::SshDialogInput(SshDialogField::Password, "pw".to_string()));
    match s.update(Event::SshConnect) {
        Action::Connect(c) => {
            assert_eq!(c.host, "example.com");
            assert_eq!(c.port, 2222);
            assert_eq!(c.username, "me");
            assert_eq!(c.password.as_deref(), Some("pw"));
            assert!(c.key_path.is_none());
        },
        _ => panic!("expected a connection"),
    }
    for bad in ["x", "70000", "", "-1"] {
        s.update(Event::SshDialogInput(SshDialogField::Port, bad.to_string()));
        match s.update(Event::SshConnect) {
            Action::Connect(c) => assert_eq!(c.port, 22),
            _ => panic!("expected a connection"),
        }
    }
}

#[test]
fn ssh_outcome_closes_or_reports() {
    let mut s = start();
    s.update(Event::SshConnected(Err("ignored".to_string())));
    assert!(s.ssh_dialog.is_none());
    s.update(Event::ShowSshDialog);
    s.update(Event::SshConnected(Err("refused".to_string())));
    assert_eq!(s.ssh_dialog.as_ref().unwrap().error.as_deref(), Some("refused"));
    s.update(Event::SshConnected(Ok(())));
    assert!(s.ssh_dialog.is_none());
    s.update(Event::ShowSshDialog);
    s.update(Event::CloseSshDialog);
    assert!(s.ssh_dialog.is_none());
    // Input without the form changes nothing.
    s.update(Event::SshDialogInput(SshDialogField::Host, "h".to_string()));
    assert!(s.ssh_dialog.is_none());
}

#[test]
fn cursor_blinks() {
    let mut s = start();
    s.update(Event::CursorBlink);
    assert!(!s.cursor_blink_state);
    s.update(Event::CursorBlink);
    assert!(s.cursor_blink_state);
}

#[test]
fn selection_text_read_directly() {
    let mut b = Buffer::new(5, 3, 0);
    let mut p = Parser::new();
    p.parse(&mut b, b"one\r\ntwo\r\nsix");
    let sel = Selection { start: (4, 2), end: (1, 0) };
    assert!(sel.can_read(&b));
    assert_eq!(sel.text_from(&b), "ne  \ntwo  \nsix  ");
    let sel = Selection { start: (2, 1), end: (2, 1) };
    assert_eq!(sel.text_from(&b), "o");
    let sel = Selection { start: (9, 0), end: (9, 0) };
    assert!(!sel.can_read(&b));
    let sel = Selection { start: (0, 2), end: (usize::MAX, 2) };
    assert!(!sel.can_read(&b));
}

#[test]
fn a_new_tab_whose_buffer_size_overflows_halts() {
    let mut s = start();
    s.scroll_buffer_size = usize::MAX - 10;
    let a = s.update(Event::TabBar(Message::NewTab));
    assert!(matches!(a, Action::Halt(Fault::SizeOverflow)));
    assert_eq!(s.terminals.len(), 1);
    assert_eq!(s.tab_bar.tabs().len(), 1);
}

#[test]
fn output_with_an_oversized_parameter_halts() {
    let mut s = start();
    let a = feed(&mut s, b"ok\x1b[99999999999m");
    assert!(matches!(a, Action::Halt(Fault::OutputNotApplicable)));
    assert!(row(&s, 0, 0).starts_with("ok "));
}

#[test]
fn only_a_new_tab_adds_a_terminal() {
    let mut s = start();
    let events = vec![
        Event::PollPty { tab: 0, output: vec![b"x".to_vec()] },
        Event::TabBar(Message::TabClicked(0)),
        Event::TabBar(Message::CloseTab(0)),
        Event::Clear,
        Event::Resized { cols: 10, rows: 5 },
        Event::SelectAll,
        Event::CursorBlink,
        Event::TabBar(Message::NewTab),
        Event::TabBar(Message::CloseTab(1)),
        Event::TabBar(Message::NewTab),
    ];
    for e in events {
        let before = s.terminals.len();
        let a = s.update(e);
        match a {
            Action::OpenTerminal { tab, .. } => {
                assert_eq!(s.terminals.len(), before + 1);
                assert_eq!(tab, before);
                assert_eq!(s.active_tab, before);
            },
            _ => assert_eq!(s.terminals.len(), before),
        }
    }
    assert_eq!(s.terminals.len(), 3);
}
