//! The decisions of the application: selections, keys, and what each user or
//! terminal event does to the open terminals and dialogs.
use vstd::prelude::*;
use vstd::string::*;
use vstd::utf8::*;

use crate::ssh::SshConfig;
use crate::terminal::buffer::{views, Buffer, BufferView, Line, LineView};
use crate::terminal::parser::{accepted, parse_run, Parser, ParserView};
use crate::text::{parse_uint, parse_uint_str, push_char};
use crate::ui::tab_bar::{
    law_tab_bar_reports_active, tab_bar_update, tab_bar_wf, Message as TabMessage, TabBar, TabBarView,
};

verus! {

/// A stretch of the screen between two cells, each `(column, row)`, in either order.
#[derive(Debug, Clone, Copy)]
pub struct Selection {
    pub start: (usize, usize),
    pub end: (usize, usize),
}

/// The selection's rows and columns from the first cell to the last:
/// `(first row, last row, column in the first row, column in the last row)`.
pub open spec fn ordered(start: (usize, usize), end: (usize, usize)) -> (int, int, int, int) {
    let (sc, sr) = start;
    let (ec, er) = end;
    if sr < er || (sr == er && sc <= ec) {
        (sr as int, er as int, sc as int, ec as int)
    } else {
        (er as int, sr as int, ec as int, sc as int)
    }
}

/// Where the selected part of row `row` ends (exclusive).
pub open spec fn row_end(l: LineView, row: int, row_max: int, col_max: int) -> int {
    if row == row_max {
        if col_max + 1 < l.cells.len() {
            col_max + 1
        } else {
            l.cells.len() as int
        }
    } else {
        l.cells.len() as int
    }
}

/// The characters of cells `from..to` of a line.
pub open spec fn cell_chars(l: LineView, from: int, to: int) -> Seq<char> {
    l.cells.subrange(from, to).map_values(|c: crate::terminal::buffer::Cell| c.char)
}

/// The selected text of row `row`, with a line break after every row but the last.
pub open spec fn row_text(lines: Seq<LineView>, row: int, r0: int, r1: int, c0: int, c1: int) -> Seq<
    char,
> {
    if 0 <= row < lines.len() {
        let l = lines[row];
        let from = if row == r0 {
            c0
        } else {
            0
        };
        cell_chars(l, from, row_end(l, row, r1, c1)) + (if row < r1 {
            seq!['\n']
        } else {
            Seq::empty()
        })
    } else {
        Seq::empty()
    }
}

/// The selected text of the rows `r0..upto`.
pub open spec fn rows_text(lines: Seq<LineView>, r0: int, r1: int, c0: int, c1: int, upto: int) -> Seq<
    char,
>
    decreases upto - r0,
{
    if upto <= r0 {
        Seq::empty()
    } else {
        rows_text(lines, r0, r1, c0, c1, upto - 1) + row_text(lines, upto - 1, r0, r1, c0, c1)
    }
}

/// The text of the selection from `start` to `end` on the lines `lines`.
pub open spec fn selection_text(lines: Seq<LineView>, start: (usize, usize), end: (usize, usize)) -> Seq<
    char,
> {
    let (r0, r1, c0, c1) = ordered(start, end);
    rows_text(lines, r0, r1, c0, c1, r1 + 1)
}

/// Reading the selection is defined where the selected part of its first row
/// starts no later than it ends, and the last column can be stepped past.
pub open spec fn selection_readable(lines: Seq<LineView>, start: (usize, usize), end: (usize, usize)) -> bool {
    let (r0, r1, c0, c1) = ordered(start, end);
    &&& (r1 < lines.len() ==> c1 + 1 <= usize::MAX)
    &&& (r0 < lines.len() ==> c0 <= row_end(lines[r0], r0, r1, c1))
}

proof fn lemma_rows_text_beyond(lines: Seq<LineView>, r0: int, r1: int, c0: int, c1: int, upto: int)
    requires
        upto >= lines.len(),
        upto >= r0,
    ensures
        rows_text(lines, r0, r1, c0, c1, upto) == rows_text(
            lines,
            r0,
            r1,
            c0,
            c1,
            if lines.len() > r0 {
                lines.len() as int
            } else {
                r0
            },
        ),
    decreases upto - r0,
{
    let stop = if lines.len() > r0 {
        lines.len() as int
    } else {
        r0
    };
    if upto > stop {
        lemma_rows_text_beyond(lines, r0, r1, c0, c1, upto - 1);
        assert(row_text(lines, upto - 1, r0, r1, c0, c1) =~= Seq::<char>::empty());
        assert(rows_text(lines, r0, r1, c0, c1, upto) =~= rows_text(lines, r0, r1, c0, c1, upto - 1));
    }
}

impl Selection {
    /// The selected text of `buffer`: from the first selected cell to the last, row
    /// by row, each row but the last followed by a line break.
    pub fn text_from(&self, buffer: &Buffer) -> (r: String)
        requires
            selection_readable(buffer@.lines, self.start, self.end),
        ensures
            r@ == selection_text(buffer@.lines, self.start, self.end),
    {
        let (start_col, start_row) = self.start;
        let (end_col, end_row) = self.end;
        let (row_min, row_max, col_min, col_max) = if start_row < end_row || (start_row == end_row
            && start_col <= end_col) {
            (start_row, end_row, start_col, end_col)
        } else {
            (end_row, start_row, end_col, start_col)
        };
        let ghost lines = buffer@.lines;
        let ghost (r0, r1, c0, c1) = ordered(self.start, self.end);
        let q = buffer.lines();
        let n = q.len();
        let stop = if row_max < n {
            row_max + 1
        } else {
            n
        };
        let mut result = String::new();
        let mut row = row_min;
        assert(result@ =~= rows_text(lines, r0, r1, c0, c1, r0));
        while row < stop
            invariant
                views(q@) == lines,
                n == lines.len(),
                r0 == row_min,
                r1 == row_max,
                c0 == col_min,
                c1 == col_max,
                stop <= n,
                stop <= row_max + 1,
                row_min <= row,
                row <= stop || (row == row_min && row_min > stop),
                row_min <= row_max,
                selection_readable(lines, self.start, self.end),
                (r0, r1, c0, c1) == ordered(self.start, self.end),
                result@ == rows_text(lines, r0, r1, c0, c1, row as int),
            decreases stop - row,
        {
            let line = &q[row];
            let len = line.cells.len();
            let from = if row == row_min {
                col_min
            } else {
                0
            };
            let to = if row == row_max {
                if col_max < len && col_max + 1 < len {
                    col_max + 1
                } else {
                    len
                }
            } else {
                len
            };
            let ghost before = result@;
            let mut i = from;
            while i < to
                invariant
                    from <= i <= to,
                    to <= len,
                    len == line.cells@.len(),
                    result@ == before + line.cells@.subrange(from as int, i as int).map_values(
                        |c: crate::terminal::buffer::Cell| c.char,
                    ),
                decreases to - i,
            {
                push_char(&mut result, line.cells[i].char);
                i = i + 1;
                assert(line.cells@.subrange(from as int, i as int).map_values(
                    |c: crate::terminal::buffer::Cell| c.char,
                ) =~= line.cells@.subrange(from as int, i - 1).map_values(
                    |c: crate::terminal::buffer::Cell| c.char,
                ).push(line.cells@[i - 1].char));
            }
            if row < row_max {
                push_char(&mut result, '\n');
            }
            proof {
                assert(lines[row as int] == line@);
                assert(result@ =~= rows_text(lines, r0, r1, c0, c1, row + 1));
            }
            row = row + 1;
        }
        proof {
            if row_max < n {
                assert(result@ == rows_text(lines, r0, r1, c0, c1, r1 + 1));
            } else {
                lemma_rows_text_beyond(lines, r0, r1, c0, c1, r1 + 1);
                lemma_rows_text_beyond(lines, r0, r1, c0, c1, row as int);
            }
        }
        result
    }
}

/// The selected text is the same whichever end the selection was started from.
pub proof fn law_selection_text_symmetric(lines: Seq<LineView>, a: (usize, usize), b: (usize, usize))
    ensures
        selection_text(lines, a, b) == selection_text(lines, b, a),
        selection_readable(lines, a, b) == selection_readable(lines, b, a),
{
    if a != b {
        assert(ordered(a, b) == ordered(b, a));
    }
}

/// The keys that have their own escape sequence.
#[derive(Debug, Clone, Copy, PartialEq, Eq, Structural)]
pub enum NamedKey {
    Enter,
    Backspace,
    Tab,
    Escape,
    ArrowUp,
    ArrowDown,
    ArrowRight,
    ArrowLeft,
    Home,
    End,
    PageUp,
    PageDown,
    Delete,
    Insert,
    F1,
    F2,
    F3,
    F4,
    F5,
    F6,
    F7,
    F8,
    F9,
    F10,
    F11,
    F12,
}

/// A key that was pressed: one with its own sequence, or any other.
#[derive(Debug, Clone, Copy, PartialEq, Eq, Structural)]
pub enum Key {
    Named(NamedKey),
    Other,
}

/// The bytes sent for a key with its own sequence.
pub open spec fn named_key_bytes(k: NamedKey) -> Seq<u8> {
    match k {
        NamedKey::Enter => seq![13u8],
        NamedKey::Backspace => seq![0x7fu8],
        NamedKey::Tab => seq![9u8],
        NamedKey::Escape => seq![0x1bu8],
        NamedKey::ArrowUp => seq![0x1bu8, 91, 65],
        NamedKey::ArrowDown => seq![0x1bu8, 91, 66],
        NamedKey::ArrowRight => seq![0x1bu8, 91, 67],
        NamedKey::ArrowLeft => seq![0x1bu8, 91, 68],
        NamedKey::Home => seq![0x1bu8, 91, 72],
        NamedKey::End => seq![0x1bu8, 91, 70],
        NamedKey::PageUp => seq![0x1bu8, 91, 53, 126],
        NamedKey::PageDown => seq![0x1bu8, 91, 54, 126],
        NamedKey::Delete => seq![0x1bu8, 91, 51, 126],
        NamedKey::Insert => seq![0x1bu8, 91, 50, 126],
        NamedKey::F1 => seq![0x1bu8, 91, 49, 49, 126],
        NamedKey::F2 => seq![0x1bu8, 91, 49, 50, 126],
        NamedKey::F3 => seq![0x1bu8, 91, 49, 51, 126],
        NamedKey::F4 => seq![0x1bu8, 91, 49, 52, 126],
        NamedKey::F5 => seq![0x1bu8, 91, 49, 53, 126],
        NamedKey::F6 => seq![0x1bu8, 91, 49, 55, 126],
        NamedKey::F7 => seq![0x1bu8, 91, 49, 56, 126],
        NamedKey::F8 => seq![0x1bu8, 91, 49, 57, 126],
        NamedKey::F9 => seq![0x1bu8, 91, 50, 48, 126],
        NamedKey::F10 => seq![0x1bu8, 91, 50, 49, 126],
        NamedKey::F11 => seq![0x1bu8, 91, 50, 51, 126],
        NamedKey::F12 => seq![0x1bu8, 91, 50, 52, 126],
    }
}

/// The bytes sent for a key, given the bytes of the text it produced: a key with
/// its own sequence sends that; otherwise a text of one byte that is printable
/// ASCII or a control character is sent as it is, and anything else sends nothing.
pub open spec fn key_bytes(key: Key, text: Option<Seq<u8>>) -> Seq<u8> {
    match key {
        Key::Named(k) => named_key_bytes(k),
        Key::Other => match text {
            Some(t) => if t.len() == 1 && (t[0] < 0x7f) {
                t
            } else {
                Seq::empty()
            },
            None => Seq::empty(),
        },
    }
}

fn named_key_vec(k: NamedKey) -> (v: Vec<u8>)
    ensures
        v@ == named_key_bytes(k),
{
    match k {
        NamedKey::Enter => vec![13u8],
        NamedKey::Backspace => vec![0x7fu8],
        NamedKey::Tab => vec![9u8],
        NamedKey::Escape => vec![0x1bu8],
        NamedKey::ArrowUp => vec![0x1bu8, 91, 65],
        NamedKey::ArrowDown => vec![0x1bu8, 91, 66],
        NamedKey::ArrowRight => vec![0x1bu8, 91, 67],
        NamedKey::ArrowLeft => vec![0x1bu8, 91, 68],
        NamedKey::Home => vec![0x1bu8, 91, 72],
        NamedKey::End => vec![0x1bu8, 91, 70],
        NamedKey::PageUp => vec![0x1bu8, 91, 53, 126],
        NamedKey::PageDown => vec![0x1bu8, 91, 54, 126],
        NamedKey::Delete => vec![0x1bu8, 91, 51, 126],
        NamedKey::Insert => vec![0x1bu8, 91, 50, 126],
        NamedKey::F1 => vec![0x1bu8, 91, 49, 49, 126],
        NamedKey::F2 => vec![0x1bu8, 91, 49, 50, 126],
        NamedKey::F3 => vec![0x1bu8, 91, 49, 51, 126],
        NamedKey::F4 => vec![0x1bu8, 91, 49, 52, 126],
        NamedKey::F5 => vec![0x1bu8, 91, 49, 53, 126],
        NamedKey::F6 => vec![0x1bu8, 91, 49, 55, 126],
        NamedKey::F7 => vec![0x1bu8, 91, 49, 56, 126],
        NamedKey::F8 => vec![0x1bu8, 91, 49, 57, 126],
        NamedKey::F9 => vec![0x1bu8, 91, 50, 48, 126],
        NamedKey::F10 => vec![0x1bu8, 91, 50, 49, 126],
        NamedKey::F11 => vec![0x1bu8, 91, 50, 51, 126],
        NamedKey::F12 => vec![0x1bu8, 91, 50, 52, 126],
    }
}

/// The bytes to send to the terminal for a key and the text it produced.
pub fn translate_key(key: Key, text: Option<&str>) -> (r: Vec<u8>)
    ensures
        r@ == key_bytes(
            key,
            match text {
                Some(t) => Some(encode_utf8(t@)),
                None => None,
            },
        ),
{
    match key {
        Key::Named(k) => named_key_vec(k),
        Key::Other => match text {
            Some(t) => {
                let b = t.as_bytes();
                if b.len() == 1 && b[0] < 0x7f {
                    let mut v: Vec<u8> = Vec::new();
                    v.push(b[0]);
                    assert(v@ =~= b@);
                    v
                } else {
                    Vec::new()
                }
            },
            None => Vec::new(),
        },
    }
}

/// An entry of the context menu.
#[derive(Debug, Clone, Copy, PartialEq, Eq, Structural)]
pub enum ContextMenuItem {
    Copy,
    Paste,
    SelectAll,
    Clear,
}

/// The form for an SSH connection, as typed.
#[derive(Debug, Clone)]
pub struct SshDialog {
    pub host: String,
    pub port: String,
    pub username: String,
    pub password: String,
    pub error: Option<String>,
}

/// A field of the SSH form.
#[derive(Debug, Clone, Copy, PartialEq, Eq, Structural)]
pub enum SshDialogField {
    Host,
    Port,
    Username,
    Password,
}

/// What the SSH form holds.
#[verifier::ext_equal]
pub struct SshDialogView {
    pub host: Seq<char>,
    pub port: Seq<char>,
    pub username: Seq<char>,
    pub password: Seq<char>,
    pub error: Option<Seq<char>>,
}

/// The contents of an optional string.
pub open spec fn opt_string_view(o: Option<String>) -> Option<Seq<char>> {
    match o {
        Some(s) => Some(s@),
        None => None,
    }
}

impl View for SshDialog {
    type V = SshDialogView;

    open spec fn view(&self) -> SshDialogView {
        SshDialogView {
            host: self.host@,
            port: self.port@,
            username: self.username@,
            password: self.password@,
            error: opt_string_view(self.error),
        }
    }
}

/// A terminal of a tab: its screen, its parser and its title.
pub struct TerminalTab {
    pub buffer: Buffer,
    pub parser: Parser,
    pub title: String,
}

/// What a terminal tab holds.
#[verifier::ext_equal]
pub struct TabModel {
    pub buffer: BufferView,
    pub parser: ParserView,
    pub title: Seq<char>,
}

impl View for TerminalTab {
    type V = TabModel;

    open spec fn view(&self) -> TabModel {
        TabModel { buffer: self.buffer@, parser: self.parser@, title: self.title@ }
    }
}

/// Why the application cannot go on.
#[derive(Debug, Clone, Copy, PartialEq, Eq, Structural)]
pub enum Fault {
    /// A byte of a terminal's output cannot be applied where it stands.
    OutputNotApplicable,
    /// The selection starts past the end of its first line.
    SelectionOutsideLine,
    /// The number of tabs or terminals, or the size of a new buffer, does not fit
    /// in a machine word.
    SizeOverflow,
}

/// What happened, as the application's logic sees it.
pub enum Event {
    TabBar(TabMessage),
    /// Output of the terminal of tab `tab`, in the pieces it arrived in.
    PollPty { tab: usize, output: Vec<Vec<u8>> },
    KeyPressed { key: Key, text: Option<String> },
    Copy,
    Paste(String),
    PasteFromClipboard,
    CopySelection,
    SelectAll,
    Clear,
    /// The window now holds `cols` by `rows` cells.
    Resized { cols: usize, rows: usize },
    /// A click on the cell `(col, row)`.
    MouseClicked { col: usize, row: usize },
    MouseRightClicked,
    /// The pointer is over the cell `(col, row)`.
    MouseMoved { col: usize, row: usize },
    MouseReleased,
    ContextMenuAction(ContextMenuItem),
    CloseContextMenu,
    ShowSshDialog,
    CloseSshDialog,
    SshDialogInput(SshDialogField, String),
    SshConnect,
    SshConnected(Result<(), String>),
    CursorBlink,
}

/// What the application is to do next, outside the logic.
pub enum Action {
    /// Nothing to do.
    Nothing,
    /// Collect the output of tab `tab` after `after_ms` milliseconds.
    Poll { tab: usize, after_ms: u64 },
    /// Start a shell for the new tab `tab` on a `cols` by `rows` terminal, and collect
    /// its output after `poll_after_ms` milliseconds.
    OpenTerminal { tab: usize, cols: usize, rows: usize, poll_after_ms: u64 },
    /// Send `bytes` to the shell of tab `tab`.
    Send { tab: usize, bytes: Vec<u8> },
    WriteClipboard(String),
    ReadClipboard,
    Connect(SshConfig),
    /// Stop: the situation cannot be handled.
    Halt(Fault),
}

/// How to reach a remote shell, as values.
#[verifier::ext_equal]
pub struct SshConfigView {
    pub host: Seq<char>,
    pub port: u16,
    pub username: Seq<char>,
    pub password: Option<Seq<char>>,
    pub key_path: Option<Seq<char>>,
}

impl View for SshConfig {
    type V = SshConfigView;

    open spec fn view(&self) -> SshConfigView {
        SshConfigView {
            host: self.host@,
            port: self.port,
            username: self.username@,
            password: opt_string_view(self.password),
            key_path: opt_string_view(self.key_path),
        }
    }
}

/// An action, as values.
pub enum ActionView {
    Nothing,
    Poll { tab: usize, after_ms: u64 },
    OpenTerminal { tab: usize, cols: usize, rows: usize, poll_after_ms: u64 },
    Send { tab: usize, bytes: Seq<u8> },
    WriteClipboard(Seq<char>),
    ReadClipboard,
    Connect(SshConfigView),
    Halt(Fault),
}

impl View for Action {
    type V = ActionView;

    open spec fn view(&self) -> ActionView {
        match self {
            Action::Nothing => ActionView::Nothing,
            Action::Poll { tab, after_ms } => ActionView::Poll { tab: *tab, after_ms: *after_ms },
            Action::OpenTerminal { tab, cols, rows, poll_after_ms } => ActionView::OpenTerminal {
                tab: *tab,
                cols: *cols,
                rows: *rows,
                poll_after_ms: *poll_after_ms,
            },
            Action::Send { tab, bytes } => ActionView::Send { tab: *tab, bytes: bytes@ },
            Action::WriteClipboard(t) => ActionView::WriteClipboard(t@),
            Action::ReadClipboard => ActionView::ReadClipboard,
            Action::Connect(c) => ActionView::Connect(c@),
            Action::Halt(f) => ActionView::Halt(*f),
        }
    }
}

/// The state of the application that its decisions read and change.
pub struct AppState {
    pub terminals: Vec<TerminalTab>,
    pub active_tab: usize,
    pub tab_bar: TabBar,
    pub title: String,
    pub selection: Option<Selection>,
    pub context_menu: Option<Vec<ContextMenuItem>>,
    pub ssh_dialog: Option<SshDialog>,
    pub cursor_blink_state: bool,
    pub scroll_buffer_size: usize,
}

/// The state of the application, as values.
#[verifier::ext_equal]
pub struct AppView {
    pub terminals: Seq<TabModel>,
    pub active_tab: usize,
    pub tab_bar: TabBarView,
    pub title: Seq<char>,
    pub selection: Option<Selection>,
    pub context_menu: Option<Seq<ContextMenuItem>>,
    pub ssh_dialog: Option<SshDialogView>,
    pub cursor_blink_state: bool,
    pub scroll_buffer_size: usize,
}

/// What each terminal tab of a sequence holds.
pub open spec fn tab_models(q: Seq<TerminalTab>) -> Seq<TabModel> {
    q.map_values(|t: TerminalTab| t@)
}

impl View for AppState {
    type V = AppView;

    open spec fn view(&self) -> AppView {
        AppView {
            terminals: tab_models(self.terminals@),
            active_tab: self.active_tab,
            tab_bar: self.tab_bar@,
            title: self.title@,
            selection: self.selection,
            context_menu: match self.context_menu {
                Some(v) => Some(v@),
                None => None,
            },
            ssh_dialog: match self.ssh_dialog {
                Some(d) => Some(d@),
                None => None,
            },
            cursor_blink_state: self.cursor_blink_state,
            scroll_buffer_size: self.scroll_buffer_size,
        }
    }
}

/// The application state is in good order: its tab row is, the active tab has a
/// terminal, and the terminals can be counted in a `usize`.
pub open spec fn app_wf(s: AppView) -> bool {
    tab_bar_wf(s.tab_bar) && s.active_tab < s.terminals.len() && s.terminals.len() <= usize::MAX
}

/// A new terminal: an 80 by 24 blank screen, a fresh parser, titled `Terminal`.
pub open spec fn fresh_terminal(scrollback: usize) -> TabModel {
    TabModel {
        buffer: BufferView {
            lines: Seq::new(24, |i: int| crate::terminal::buffer::blank_line(80)),
            alternate: None,
            alternate_cursor: None,
            height: 24,
            width: 80,
            scrollback,
            cursor_x: 0,
            cursor_y: 0,
            saved_cursor: None,
        },
        parser: ParserView {
            state: crate::terminal::parser::ParserState::Ground,
            params: Seq::empty(),
            intermediate: Seq::empty(),
            attrs: crate::terminal::buffer::plain_attrs(),
            scroll_top: 0,
            scroll_bottom: 0,
            title: Seq::empty(),
            osc: Seq::empty(),
            osc_param: 0,
        },
        title: "Terminal"@,
    }
}

/// The active tab has a terminal.
pub open spec fn has_active(s: AppView) -> bool {
    s.active_tab < s.terminals.len()
}

/// The terminal of the active tab replaced by `m`.
pub open spec fn with_active(s: AppView, m: TabModel) -> AppView {
    AppView { terminals: s.terminals.update(s.active_tab as int, m), ..s }
}

/// The selection's text put on the clipboard, when there is a selection and a
/// terminal, and the text is not empty.
pub open spec fn copy_selection(s: AppView) -> (AppView, ActionView) {
    match s.selection {
        Some(sel) => if has_active(s) {
            let lines = s.terminals[s.active_tab as int].buffer.lines;
            if !selection_readable(lines, sel.start, sel.end) {
                (s, ActionView::Halt(Fault::SelectionOutsideLine))
            } else {
                let t = selection_text(lines, sel.start, sel.end);
                if t.len() > 0 {
                    (s, ActionView::WriteClipboard(t))
                } else {
                    (s, ActionView::Nothing)
                }
            }
        } else {
            (s, ActionView::Nothing)
        },
        None => (s, ActionView::Nothing),
    }
}

/// The whole viewport selected.
pub open spec fn select_all(s: AppView) -> (AppView, ActionView) {
    if has_active(s) {
        let b = s.terminals[s.active_tab as int].buffer;
        (
            AppView {
                selection: Some(
                    Selection {
                        start: (0, 0),
                        end: (
                            crate::terminal::buffer::sat_sub(b.width as int, 1) as usize,
                            crate::terminal::buffer::sat_sub(b.height as int, 1) as usize,
                        ),
                    },
                ),
                ..s
            },
            ActionView::Nothing,
        )
    } else {
        (s, ActionView::Nothing)
    }
}

/// The active screen cleared and the selection dropped.
pub open spec fn clear_screen(s: AppView) -> (AppView, ActionView) {
    let s1 = if has_active(s) {
        let m = s.terminals[s.active_tab as int];
        with_active(s, TabModel { buffer: m.buffer.clear(), ..m })
    } else {
        s
    };
    (AppView { selection: None, ..s1 }, ActionView::Nothing)
}

/// Output pieces applied to a terminal one after another, and whether every byte
/// could be applied.
pub open spec fn apply_output(m: TabModel, chunks: Seq<Seq<u8>>) -> (TabModel, bool)
    decreases chunks.len(),
{
    if chunks.len() == 0 {
        (m, true)
    } else {
        let (m1, ok) = apply_output(m, chunks.drop_last());
        if !ok {
            (m1, false)
        } else {
            let d = chunks.last();
            let n = accepted(m1.parser, m1.buffer, d);
            let (p2, b2) = parse_run(m1.parser, m1.buffer, d.take(n));
            (TabModel { parser: p2, buffer: b2, ..m1 }, n == d.len())
        }
    }
}

/// The contents of pieces of output.
pub open spec fn chunk_views(q: Seq<Vec<u8>>) -> Seq<Seq<u8>> {
    q.map_values(|v: Vec<u8>| v@)
}

/// The port typed in the form, or 22 where it is not a port number.
pub open spec fn port_or_default(port: Seq<char>) -> u16 {
    match parse_uint(encode_utf8(port), 65535) {
        Some(v) => v as u16,
        None => 22,
    }
}

/// The empty SSH form, with port 22.
pub open spec fn empty_dialog() -> SshDialogView {
    SshDialogView {
        host: Seq::empty(),
        port: "22"@,
        username: Seq::empty(),
        password: Seq::empty(),
        error: None,
    }
}

/// Output of tab `tab` applied; then the active tab is to be polled again.
pub open spec fn poll_update(s: AppView, tab: usize, chunks: Seq<Seq<u8>>) -> (AppView, ActionView) {
    let poll = ActionView::Poll { tab: s.active_tab, after_ms: 16 };
    if tab < s.terminals.len() {
        let (m, ok) = apply_output(s.terminals[tab as int], chunks);
        let s1 = AppView { terminals: s.terminals.update(tab as int, m), ..s };
        if ok {
            (s1, poll)
        } else {
            (s1, ActionView::Halt(Fault::OutputNotApplicable))
        }
    } else {
        (s, poll)
    }
}

/// A key press: ignored while the SSH form is open; otherwise it closes the menu
/// and its bytes, if any, go to the active terminal.
pub open spec fn key_update(s: AppView, key: Key, text: Option<Seq<u8>>) -> (AppView, ActionView) {
    if s.ssh_dialog is Some {
        (s, ActionView::Nothing)
    } else {
        let s1 = AppView { context_menu: None, ..s };
        let bytes = key_bytes(key, text);
        if has_active(s) && bytes.len() > 0 {
            (s1, ActionView::Send { tab: s.active_tab, bytes })
        } else {
            (s1, ActionView::Nothing)
        }
    }
}

/// A message of the tab row: a new tab gets a new terminal and becomes active;
/// otherwise the tab that the row reports active picks the terminal (the last one
/// where there are fewer terminals) and the selection is dropped.
pub open spec fn tab_event(s: AppView, msg: TabMessage) -> (AppView, ActionView) {
    match msg {
        TabMessage::NewTab => {
            if s.tab_bar.tabs.len() + 1 >= usize::MAX || s.terminals.len() + 1 > usize::MAX || 24
                + s.scroll_buffer_size > usize::MAX {
                (s, ActionView::Halt(Fault::SizeOverflow))
            } else {
                let idx = s.terminals.len();
                let s1 = AppView {
                    terminals: s.terminals.push(fresh_terminal(s.scroll_buffer_size)),
                    tab_bar: tab_bar_update(s.tab_bar, msg).0,
                    active_tab: idx as usize,
                    ..s
                };
                (
                    s1,
                    ActionView::OpenTerminal {
                        tab: idx as usize,
                        cols: 80,
                        rows: 24,
                        poll_after_ms: 100,
                    },
                )
            }
        },
        _ => {
            let (bar, id) = tab_bar_update(s.tab_bar, msg);
            match id {
                Some(tab_id) => {
                    let last = crate::terminal::buffer::sat_sub(s.terminals.len() as int, 1);
                    (
                        AppView {
                            tab_bar: bar,
                            active_tab: crate::terminal::buffer::min_int(tab_id - 1, last) as usize,
                            selection: None,
                            ..s
                        },
                        ActionView::Nothing,
                    )
                },
                None => (AppView { tab_bar: bar, ..s }, ActionView::Nothing),
            }
        },
    }
}

/// The active screen resized to the window, at least one cell each way.
pub open spec fn resize_update(s: AppView, cols: usize, rows: usize) -> (AppView, ActionView) {
    let c = if cols >= 1 {
        cols
    } else {
        1
    };
    let r = if rows >= 1 {
        rows
    } else {
        1
    };
    if has_active(s) {
        let m = s.terminals[s.active_tab as int];
        (
            with_active(s, TabModel { buffer: m.buffer.resize(c as int, r as int), ..m }),
            ActionView::Nothing,
        )
    } else {
        (s, ActionView::Nothing)
    }
}

/// A field of the SSH form set, while the form is open.
pub open spec fn dialog_input(s: AppView, field: SshDialogField, value: Seq<char>) -> (AppView, ActionView) {
    match s.ssh_dialog {
        Some(d) => {
            let d1 = match field {
                SshDialogField::Host => SshDialogView { host: value, ..d },
                SshDialogField::Port => SshDialogView { port: value, ..d },
                SshDialogField::Username => SshDialogView { username: value, ..d },
                SshDialogField::Password => SshDialogView { password: value, ..d },
            };
            (AppView { ssh_dialog: Some(d1), ..s }, ActionView::Nothing)
        },
        None => (s, ActionView::Nothing),
    }
}

/// Connect with what the SSH form holds, by password.
pub open spec fn ssh_connect(s: AppView) -> (AppView, ActionView) {
    match s.ssh_dialog {
        Some(d) => (
            s,
            ActionView::Connect(
                SshConfigView {
                    host: d.host,
                    port: port_or_default(d.port),
                    username: d.username,
                    password: Some(d.password),
                    key_path: None,
                },
            ),
        ),
        None => (s, ActionView::Nothing),
    }
}

/// The outcome of connecting: success closes the form, failure shows its message.
pub open spec fn ssh_connected(s: AppView, result: Result<(), Seq<char>>) -> (AppView, ActionView) {
    match s.ssh_dialog {
        Some(d) => match result {
            Ok(()) => (AppView { ssh_dialog: None, ..s }, ActionView::Nothing),
            Err(msg) => (
                AppView { ssh_dialog: Some(SshDialogView { error: Some(msg), ..d }), ..s },
                ActionView::Nothing,
            ),
        },
        None => (s, ActionView::Nothing),
    }
}

/// The pointer events: a click starts a selection and closes the menu, a right
/// click opens the menu, moving extends a selection, and releasing where it started
/// drops it.
pub open spec fn pointer_update(s: AppView, e: Event) -> (AppView, ActionView) {
    match e {
        Event::MouseClicked { col, row } => (
            AppView {
                context_menu: None,
                selection: Some(Selection { start: (col, row), end: (col, row) }),
                ..s
            },
            ActionView::Nothing,
        ),
        Event::MouseRightClicked => (
            AppView {
                context_menu: Some(
                    seq![
                        ContextMenuItem::Copy,
                        ContextMenuItem::Paste,
                        ContextMenuItem::SelectAll,
                        ContextMenuItem::Clear,
                    ],
                ),
                ..s
            },
            ActionView::Nothing,
        ),
        Event::MouseMoved { col, row } => match s.selection {
            Some(sel) => (
                AppView { selection: Some(Selection { end: (col, row), ..sel }), ..s },
                ActionView::Nothing,
            ),
            None => (s, ActionView::Nothing),
        },
        Event::MouseReleased => match s.selection {
            Some(sel) => if sel.start == sel.end {
                (AppView { selection: None, ..s }, ActionView::Nothing)
            } else {
                (s, ActionView::Nothing)
            },
            None => (s, ActionView::Nothing),
        },
        _ => (s, ActionView::Nothing),
    }
}

/// What an event does to the application, and what is to be done next.
pub open spec fn app_update(s: AppView, e: Event) -> (AppView, ActionView) {
    match e {
        Event::PollPty { tab, output } => poll_update(s, tab, chunk_views(output@)),
        Event::KeyPressed { key, text } => key_update(
            s,
            key,
            match text {
                Some(t) => Some(encode_utf8(t@)),
                None => None,
            },
        ),
        Event::TabBar(msg) => tab_event(s, msg),
        Event::CopySelection => copy_selection(s),
        Event::Copy => copy_selection(s),
        Event::PasteFromClipboard => (s, ActionView::ReadClipboard),
        Event::Paste(text) => if has_active(s) {
            (s, ActionView::Send { tab: s.active_tab, bytes: encode_utf8(text@) })
        } else {
            (s, ActionView::Nothing)
        },
        Event::SelectAll => select_all(s),
        Event::Clear => clear_screen(s),
        Event::Resized { cols, rows } => resize_update(s, cols, rows),
        Event::MouseClicked { .. } => pointer_update(s, e),
        Event::MouseRightClicked => pointer_update(s, e),
        Event::MouseMoved { .. } => pointer_update(s, e),
        Event::MouseReleased => pointer_update(s, e),
        Event::ContextMenuAction(item) => {
            let s1 = AppView { context_menu: None, ..s };
            match item {
                ContextMenuItem::Copy => copy_selection(s1),
                ContextMenuItem::Paste => (s1, ActionView::ReadClipboard),
                ContextMenuItem::SelectAll => select_all(s1),
                ContextMenuItem::Clear => clear_screen(s1),
            }
        },
        Event::CloseContextMenu => (AppView { context_menu: None, ..s }, ActionView::Nothing),
        Event::ShowSshDialog => (
            AppView { ssh_dialog: Some(empty_dialog()), ..s },
            ActionView::Nothing,
        ),
        Event::CloseSshDialog => (AppView { ssh_dialog: None, ..s }, ActionView::Nothing),
        Event::SshDialogInput(field, value) => dialog_input(s, field, value@),
        Event::SshConnect => ssh_connect(s),
        Event::SshConnected(result) => ssh_connected(
            s,
            match result {
                Ok(()) => Ok(()),
                Err(m) => Err(m@),
            },
        ),
        Event::CursorBlink => (
            AppView { cursor_blink_state: !s.cursor_blink_state, ..s },
            ActionView::Nothing,
        ),
    }
}

/// Terminals are never dropped: an event adds one exactly when it asks for a
/// shell to be started, and then the new terminal is the last one and the active
/// one; every other event keeps the terminals' number; and the state stays in
/// good order, so the active tab always has a terminal.
pub proof fn law_terminals_added_only_by_new_tab(s: AppView, e: Event)
    requires
        app_wf(s),
    ensures
        ({
            let (s2, a) = app_update(s, e);
            &&& a is OpenTerminal ==> {
                &&& e matches Event::TabBar(TabMessage::NewTab)
                &&& s2.terminals.len() == s.terminals.len() + 1
                &&& s2.active_tab == s.terminals.len()
                &&& a->OpenTerminal_tab == s.terminals.len()
            }
            &&& !(a is OpenTerminal) ==> s2.terminals.len() == s.terminals.len()
            &&& app_wf(s2)
        }),
{
    match e {
        Event::TabBar(msg) => {
            if !(msg is NewTab) || s.tab_bar.tabs.len() + 1 < usize::MAX {
                law_tab_bar_reports_active(s.tab_bar, msg);
            }
        },
        _ => {},
    }
}

/// A key press while no SSH form is open is typed into the active terminal: the
/// bytes of the key are sent to the active tab when there are any, nothing is sent
/// otherwise, and the only change to the state is that the context menu closes.
/// While the SSH form is open a key press changes nothing and sends nothing.
pub proof fn law_key_goes_to_active_terminal(s: AppView, key: Key, text: Option<String>)
    requires
        app_wf(s),
    ensures
        ({
            let typed = match text {
                Some(t) => Some(encode_utf8(t@)),
                None => None,
            };
            let bytes = key_bytes(key, typed);
            let (s2, a) = app_update(s, Event::KeyPressed { key, text });
            &&& s.ssh_dialog is None ==> {
                &&& s2 == AppView { context_menu: None, ..s }
                &&& bytes.len() > 0 ==> a == ActionView::Send { tab: s.active_tab, bytes }
                &&& bytes.len() == 0 ==> a == ActionView::Nothing
            }
            &&& s.ssh_dialog is Some ==> s2 == s && a == ActionView::Nothing
        }),
{
}

/// Whatever the event, bytes are only ever sent to the terminal of the active
/// tab, and that tab stays the active one.
pub proof fn law_input_only_to_active_terminal(s: AppView, e: Event)
    requires
        app_wf(s),
    ensures
        ({
            let (s2, a) = app_update(s, e);
            a matches ActionView::Send { tab, bytes } ==> tab == s.active_tab && s2.active_tab
                == s.active_tab && tab < s.terminals.len()
        }),
{
}

proof fn lemma_models_remove_insert(q: Seq<TerminalTab>, i: int, t: TerminalTab)
    requires
        0 <= i < q.len(),
    ensures
        tab_models(q.remove(i).insert(i, t)) == tab_models(q).update(i, t@),
        tab_models(q)[i] == q[i]@,
{
    assert(tab_models(q.remove(i).insert(i, t)) =~= tab_models(q).update(i, t@));
}

fn new_terminal(scrollback: usize) -> (t: TerminalTab)
    requires
        24 + scrollback <= usize::MAX,
    ensures
        t@ == fresh_terminal(scrollback),
{
    let t = TerminalTab {
        buffer: Buffer::new(80, 24, scrollback),
        parser: Parser::new(),
        title: "Terminal".to_owned(),
    };
    assert(t@ =~= fresh_terminal(scrollback));
    t
}

/// Output pieces applied to a terminal, as far as every byte can be applied.
fn apply_output_to(t: &mut TerminalTab, chunks: &Vec<Vec<u8>>) -> (ok: bool)
    ensures
        (final(t)@, ok) == apply_output(old(t)@, chunk_views(chunks@)),
{
    let ghost cv = chunk_views(chunks@);
    let mut i: usize = 0;
    assert(cv.take(0) =~= Seq::<Seq<u8>>::empty());
    while i < chunks.len()
        invariant
            cv == chunk_views(chunks@),
            i <= chunks@.len(),
            apply_output(old(t)@, cv.take(i as int)) == (t@, true),
        decreases chunks@.len() - i,
    {
        let ghost before = t@;
        let d = chunks[i].as_slice();
        let n = t.parser.parse_prefix(&mut t.buffer, d);
        proof {
            assert(cv.take(i + 1int).drop_last() =~= cv.take(i as int));
            assert(cv.take(i + 1int).last() == cv[i as int]);
            assert(cv[i as int] == d@);
        }
        if n < d.len() {
            assert(t@ =~= apply_output(old(t)@, cv.take(i + 1int)).0);
            proof {
                lemma_apply_output_stops(old(t)@, cv, i as int);
            }
            return false;
        }
        assert(d@.take(n as int) =~= d@);
        assert(t@ =~= apply_output(old(t)@, cv.take(i + 1int)).0);
        i = i + 1;
    }
    assert(cv.take(i as int) =~= cv);
    true
}

/// Once a piece cannot be applied, the pieces after it change nothing.
proof fn lemma_apply_output_stops(m: TabModel, cv: Seq<Seq<u8>>, i: int)
    requires
        0 <= i < cv.len(),
        apply_output(m, cv.take(i + 1)).1 == false,
    ensures
        apply_output(m, cv) == apply_output(m, cv.take(i + 1)),
    decreases cv.len() - i,
{
    if i + 1 == cv.len() {
        assert(cv.take(i + 1) =~= cv);
    } else {
        assert(cv.drop_last().take(i + 1) =~= cv.take(i + 1));
        lemma_apply_output_stops(m, cv.drop_last(), i);
        assert(apply_output(m, cv) == apply_output(m, cv.drop_last()));
    }
}

impl AppState {
    /// The application at start: one terminal on one tab, no selection, menu or
    /// dialog, the cursor shown; its shell is to be started.
    pub fn new(scroll_buffer_size: usize) -> (r: (Self, Action))
        requires
            24 + scroll_buffer_size <= usize::MAX,
        ensures
            app_wf(r.0@),
            r.0@.terminals == seq![fresh_terminal(scroll_buffer_size)],
            r.0@.active_tab == 0,
            r.0@.tab_bar == (TabBarView {
                tabs: seq![crate::ui::tab_bar::TabView { id: 1, title: crate::ui::tab_bar::tab_title(1) }],
                active: 0,
            }),
            r.0@.title == "CreeperTerm"@,
            r.0@.selection is None,
            r.0@.context_menu is None,
            r.0@.ssh_dialog is None,
            r.0@.cursor_blink_state,
            r.0@.scroll_buffer_size == scroll_buffer_size,
            r.1@ == (ActionView::OpenTerminal { tab: 0, cols: 80, rows: 24, poll_after_ms: 100 }),
    {
        let mut terminals: Vec<TerminalTab> = Vec::new();
        terminals.push(new_terminal(scroll_buffer_size));
        let s = AppState {
            terminals,
            active_tab: 0,
            tab_bar: TabBar::new(),
            title: "CreeperTerm".to_owned(),
            selection: None,
            context_menu: None,
            ssh_dialog: None,
            cursor_blink_state: true,
            scroll_buffer_size,
        };
        assert(s@.terminals =~= seq![fresh_terminal(scroll_buffer_size)]);
        (s, Action::OpenTerminal { tab: 0, cols: 80, rows: 24, poll_after_ms: 100 })
    }

    fn copy_selection(&self) -> (r: Action)
        ensures
            (self@, r@) == copy_selection(self@),
    {
        match self.selection {
            Some(sel) => {
                if self.active_tab < self.terminals.len() {
                    let buffer = &self.terminals[self.active_tab].buffer;
                    proof {
                        assert(tab_models(self.terminals@)[self.active_tab as int]
                            == self.terminals@[self.active_tab as int]@);
                    }
                    if !sel.can_read(buffer) {
                        return Action::Halt(Fault::SelectionOutsideLine);
                    }
                    let text = sel.text_from(buffer);
                    if text.unicode_len() > 0 {
                        Action::WriteClipboard(text)
                    } else {
                        Action::Nothing
                    }
                } else {
                    Action::Nothing
                }
            },
            None => Action::Nothing,
        }
    }

    fn select_all(&mut self) -> (r: Action)
        ensures
            (final(self)@, r@) == select_all(old(self)@),
    {
        if self.active_tab < self.terminals.len() {
            let buffer = &self.terminals[self.active_tab].buffer;
            proof {
                assert(tab_models(self.terminals@)[self.active_tab as int]
                    == self.terminals@[self.active_tab as int]@);
            }
            let h = buffer.viewport_height();
            let w = buffer.viewport_width();
            self.selection = Some(
                Selection {
                    start: (0, 0),
                    end: (w.saturating_sub(1), h.saturating_sub(1)),
                },
            );
            assert(self@ =~= select_all(old(self)@).0);
        }
        Action::Nothing
    }

    fn clear_screen(&mut self) -> (r: Action)
        ensures
            (final(self)@, r@) == clear_screen(old(self)@),
    {
        if self.active_tab < self.terminals.len() {
            let i = self.active_tab;
            let ghost q = self.terminals@;
            let mut t = self.terminals.remove(i);
            t.buffer.clear();
            self.terminals.insert(i, t);
            proof {
                lemma_models_remove_insert(q, i as int, t);
            }
        }
        self.selection = None;
        assert(self@ =~= clear_screen(old(self)@).0);
        Action::Nothing
    }

    fn on_poll(&mut self, tab: usize, output: &Vec<Vec<u8>>) -> (r: Action)
        requires
            app_wf(old(self)@),
        ensures
            app_wf(final(self)@),
            (final(self)@, r@) == poll_update(old(self)@, tab, chunk_views(output@)),
    {
        if tab < self.terminals.len() {
            let ghost q = self.terminals@;
            let mut t = self.terminals.remove(tab);
            let ok = apply_output_to(&mut t, output);
            self.terminals.insert(tab, t);
            proof {
                lemma_models_remove_insert(q, tab as int, t);
            }
            assert(self@ =~= poll_update(old(self)@, tab, chunk_views(output@)).0);
            if !ok {
                return Action::Halt(Fault::OutputNotApplicable);
            }
        }
        Action::Poll { tab: self.active_tab, after_ms: 16 }
    }

    fn on_key(&mut self, key: Key, text: Option<String>) -> (r: Action)
        requires
            app_wf(old(self)@),
        ensures
            app_wf(final(self)@),
            (final(self)@, r@) == key_update(
                old(self)@,
                key,
                match text {
                    Some(t) => Some(encode_utf8(t@)),
                    None => None,
                },
            ),
    {
        if self.ssh_dialog.is_some() {
            return Action::Nothing;
        }
        self.context_menu = None;
        let input = match &text {
            Some(t) => translate_key(key, Some(t.as_str())),
            None => translate_key(key, None),
        };
        assert(self@ =~= AppView { context_menu: None, ..old(self)@ });
        if self.active_tab < self.terminals.len() && input.len() > 0 {
            Action::Send { tab: self.active_tab, bytes: input }
        } else {
            Action::Nothing
        }
    }

    fn on_tab(&mut self, msg: TabMessage) -> (r: Action)
        requires
            app_wf(old(self)@),
        ensures
            app_wf(final(self)@),
            (final(self)@, r@) == tab_event(old(self)@, msg),
    {
        match msg {
            TabMessage::NewTab => {
                if self.tab_bar.tabs().len() >= usize::MAX - 1 || self.terminals.len() == usize::MAX
                    || self.scroll_buffer_size > usize::MAX - 24 {
                    return Action::Halt(Fault::SizeOverflow);
                }
                let idx = self.terminals.len();
                let t = new_terminal(self.scroll_buffer_size);
                self.terminals.push(t);
                let count = self.terminals.len();
                assert(tab_models(self.terminals@).len() == count);
                self.tab_bar.update(msg);
                self.active_tab = idx;
                assert(tab_models(self.terminals@) =~= tab_models(old(self).terminals@).push(t@));
                assert(self@ =~= tab_event(old(self)@, msg).0);
                Action::OpenTerminal { tab: idx, cols: 80, rows: 24, poll_after_ms: 100 }
            },
            _ => {
                let id = self.tab_bar.update(msg);
                match id {
                    Some(tab_id) => {
                        proof {
                            let v = old(self)@.tab_bar;
                            match msg {
                                TabMessage::CloseTab(i) => {
                                    let tabs = v.tabs.remove(i as int);
                                    let a = self.tab_bar@.active;
                                    if a < i {
                                        assert(tabs[a as int] == v.tabs[a as int]);
                                    } else {
                                        assert(tabs[a as int] == v.tabs[a + 1]);
                                    }
                                },
                                _ => {},
                            }
                        }
                        let last = self.terminals.len().saturating_sub(1);
                        self.active_tab = if tab_id - 1 < last {
                            tab_id - 1
                        } else {
                            last
                        };
                        self.selection = None;
                    },
                    None => {},
                }
                assert(self@ =~= tab_event(old(self)@, msg).0);
                Action::Nothing
            },
        }
    }

    fn on_resize(&mut self, cols: usize, rows: usize) -> (r: Action)
        requires
            app_wf(old(self)@),
        ensures
            app_wf(final(self)@),
            (final(self)@, r@) == resize_update(old(self)@, cols, rows),
    {
        let c = if cols >= 1 {
            cols
        } else {
            1
        };
        let r = if rows >= 1 {
            rows
        } else {
            1
        };
        if self.active_tab < self.terminals.len() {
            let i = self.active_tab;
            let ghost q = self.terminals@;
            let mut t = self.terminals.remove(i);
            t.buffer.resize(c, r);
            self.terminals.insert(i, t);
            proof {
                lemma_models_remove_insert(q, i as int, t);
            }
            assert(self@ =~= resize_update(old(self)@, cols, rows).0);
        }
        Action::Nothing
    }

    fn on_pointer(&mut self, event: Event) -> (r: Action)
        requires
            app_wf(old(self)@),
        ensures
            app_wf(final(self)@),
            (final(self)@, r@) == pointer_update(old(self)@, event),
    {
        match event {
            Event::MouseClicked { col, row } => {
                self.context_menu = None;
                self.selection = Some(Selection { start: (col, row), end: (col, row) });
            },
            Event::MouseRightClicked => {
                self.context_menu = Some(
                    vec![
                        ContextMenuItem::Copy,
                        ContextMenuItem::Paste,
                        ContextMenuItem::SelectAll,
                        ContextMenuItem::Clear,
                    ],
                );
            },
            Event::MouseMoved { col, row } => {
                match self.selection {
                    Some(sel) => {
                        self.selection = Some(Selection { start: sel.start, end: (col, row) });
                    },
                    None => {},
                }
            },
            Event::MouseReleased => {
                match self.selection {
                    Some(sel) => {
                        if sel.start.0 == sel.end.0 && sel.start.1 == sel.end.1 {
                            self.selection = None;
                        }
                    },
                    None => {},
                }
            },
            _ => {},
        }
        assert(self@ =~= pointer_update(old(self)@, event).0);
        Action::Nothing
    }

    fn on_dialog_input(&mut self, field: SshDialogField, value: String) -> (r: Action)
        requires
            app_wf(old(self)@),
        ensures
            app_wf(final(self)@),
            (final(self)@, r@) == dialog_input(old(self)@, field, value@),
    {
        match self.ssh_dialog.take() {
            Some(d) => {
                let mut d = d;
                match field {
                    SshDialogField::Host => d.host = value,
                    SshDialogField::Port => d.port = value,
                    SshDialogField::Username => d.username = value,
                    SshDialogField::Password => d.password = value,
                }
                self.ssh_dialog = Some(d);
            },
            None => {},
        }
        assert(self@ =~= dialog_input(old(self)@, field, value@).0);
        Action::Nothing
    }

    fn on_ssh_connect(&self) -> (r: Action)
        ensures
            (self@, r@) == ssh_connect(self@),
    {
        match &self.ssh_dialog {
            Some(d) => {
                let port: u16 = match parse_uint_str(d.port.as_str(), 65535) {
                    Some(v) => v as u16,
                    None => 22,
                };
                let config = SshConfig {
                    host: d.host.clone(),
                    port,
                    username: d.username.clone(),
                    password: Some(d.password.clone()),
                    key_path: None,
                };
                Action::Connect(config)
            },
            None => Action::Nothing,
        }
    }

    fn on_ssh_connected(&mut self, result: Result<(), String>) -> (r: Action)
        requires
            app_wf(old(self)@),
        ensures
            app_wf(final(self)@),
            (final(self)@, r@) == ssh_connected(
                old(self)@,
                match result {
                    Ok(()) => Ok(()),
                    Err(m) => Err(m@),
                },
            ),
    {
        match self.ssh_dialog.take() {
            Some(d) => {
                match result {
                    Ok(()) => {
                        self.ssh_dialog = None;
                    },
                    Err(msg) => {
                        let mut d = d;
                        d.error = Some(msg);
                        self.ssh_dialog = Some(d);
                    },
                }
            },
            None => {},
        }
        assert(self@ =~= ssh_connected(
            old(self)@,
            match result {
                Ok(()) => Ok(()),
                Err(m) => Err(m@),
            },
        ).0);
        Action::Nothing
    }

    /// Apply an event: change the state as the application does, and say what is
    /// to be done outside.
    pub fn update(&mut self, event: Event) -> (r: Action)
        requires
            app_wf(old(self)@),
        ensures
            app_wf(final(self)@),
            (final(self)@, r@) == app_update(old(self)@, event),
    {
        match event {
            Event::PollPty { tab, output } => self.on_poll(tab, &output),
            Event::KeyPressed { key, text } => self.on_key(key, text),
            Event::TabBar(msg) => self.on_tab(msg),
            Event::CopySelection => self.copy_selection(),
            Event::Copy => self.copy_selection(),
            Event::PasteFromClipboard => Action::ReadClipboard,
            Event::Paste(text) => {
                if self.active_tab < self.terminals.len() {
                    let bytes = text.as_str().as_bytes_vec();
                    Action::Send { tab: self.active_tab, bytes }
                } else {
                    Action::Nothing
                }
            },
            Event::SelectAll => self.select_all(),
            Event::Clear => self.clear_screen(),
            Event::Resized { cols, rows } => self.on_resize(cols, rows),
            Event::MouseClicked { col, row } => self.on_pointer(Event::MouseClicked { col, row }),
            Event::MouseRightClicked => self.on_pointer(Event::MouseRightClicked),
            Event::MouseMoved { col, row } => self.on_pointer(Event::MouseMoved { col, row }),
            Event::MouseReleased => self.on_pointer(Event::MouseReleased),
            Event::ContextMenuAction(item) => {
                self.context_menu = None;
                match item {
                    ContextMenuItem::Copy => self.copy_selection(),
                    ContextMenuItem::Paste => Action::ReadClipboard,
                    ContextMenuItem::SelectAll => self.select_all(),
                    ContextMenuItem::Clear => self.clear_screen(),
                }
            },
            Event::CloseContextMenu => {
                self.context_menu = None;
                assert(self@ =~= app_update(old(self)@, event).0);
                Action::Nothing
            },
            Event::ShowSshDialog => {
                self.ssh_dialog = Some(
                    SshDialog {
                        host: String::new(),
                        port: "22".to_owned(),
                        username: String::new(),
                        password: String::new(),
                        error: None,
                    },
                );
                assert(self@ =~= app_update(old(self)@, event).0);
                Action::Nothing
            },
            Event::CloseSshDialog => {
                self.ssh_dialog = None;
                assert(self@ =~= app_update(old(self)@, event).0);
                Action::Nothing
            },
            Event::SshDialogInput(field, value) => self.on_dialog_input(field, value),
            Event::SshConnect => self.on_ssh_connect(),
            Event::SshConnected(result) => self.on_ssh_connected(result),
            Event::CursorBlink => {
                self.cursor_blink_state = !self.cursor_blink_state;
                assert(self@ =~= app_update(old(self)@, event).0);
                Action::Nothing
            },
        }
    }
}

impl Selection {
    /// Whether the selection can be read from `buffer` (see `selection_readable`).
    pub fn can_read(&self, buffer: &Buffer) -> (r: bool)
        ensures
            r == selection_readable(buffer@.lines, self.start, self.end),
    {
        let (start_col, start_row) = self.start;
        let (end_col, end_row) = self.end;
        let (row_min, row_max, col_min, col_max) = if start_row < end_row || (start_row == end_row
            && start_col <= end_col) {
            (start_row, end_row, start_col, end_col)
        } else {
            (end_row, start_row, end_col, start_col)
        };
        let q = buffer.lines();
        let n = q.len();
        if row_max < n && col_max == usize::MAX {
            return false;
        }
        if row_min < n {
            let len = q[row_min].cells.len();
            proof {
                assert(buffer@.lines[row_min as int] == q@[row_min as int]@);
            }
            let end = if row_min == row_max {
                if col_max < len && col_max + 1 < len {
                    col_max + 1
                } else {
                    len
                }
            } else {
                len
            };
            col_min <= end
        } else {
            true
        }
    }
}

} // verus!
