//! The escape-sequence parser: a state machine that reads the bytes a program
//! writes to the terminal and applies them to a `Buffer`.
use vstd::prelude::*;
use vstd::string::*;
use vstd::utf8::*;

use super::buffer::{
    blank_cell, min_int, plain_attrs, sat_sub, Buffer, BufferView, Cell, CellAttributes, Color,
};
use crate::text::{parse_uint, parse_uint_str};

verus! {

/// Where the parser is within an escape sequence.
#[derive(Debug, Clone, Copy, PartialEq, Eq, Structural)]
pub enum ParserState {
    Ground,
    Escape,
    Csi,
    Osc,
    Dcs,
}

/// The state of a parser.
#[verifier::ext_equal]
pub struct ParserView {
    pub state: ParserState,
    pub params: Seq<u32>,
    pub intermediate: Seq<u8>,
    pub attrs: CellAttributes,
    pub scroll_top: usize,
    pub scroll_bottom: usize,
    pub title: Seq<char>,
    pub osc: Seq<u8>,
    pub osc_param: u32,
}

// ---------------------------------------------------------------------------
// What one byte does.
// ---------------------------------------------------------------------------

/// Move down one line; at the bottom of the scrolling region, scroll it up.
pub open spec fn line_feed(p: ParserView, b: BufferView) -> BufferView {
    if b.cursor_y >= p.scroll_bottom - 1 {
        b.scroll_up_region(p.scroll_top as int, p.scroll_bottom as int, 1)
    } else {
        b.move_cursor(b.cursor_x as int, min_int(b.cursor_y + 1, b.height - 1))
    }
}

/// A line feed is defined where the region's bottom is known and, when the cursor
/// is above it, the viewport has a row.
pub open spec fn line_feed_ok(p: ParserView, b: BufferView) -> bool {
    p.scroll_bottom >= 1 && (b.cursor_y >= p.scroll_bottom - 1 || b.height >= 1)
}

/// The next tab stop after column `x`: the next multiple of eight.
pub open spec fn tab_stop(x: int) -> int {
    (x / 8 + 1) * 8
}

/// A printable byte: put it at the cursor (when the cursor is inside the width)
/// and move right, or to the start of the next line after the last column.
pub open spec fn print_byte(p: ParserView, b: BufferView, byte: u8) -> BufferView {
    let x = b.cursor_x as int;
    let y = b.cursor_y as int;
    let c = Cell { char: byte as char, attributes: p.attrs };
    let b1 = if x < b.width {
        b.set_cell(x, y, c)
    } else {
        b
    };
    if x + 1 >= b.width {
        b1.move_cursor(0, min_int(y + 1, b.height - 1))
    } else {
        b1.move_cursor(x + 1, y)
    }
}

/// A byte outside any escape sequence.
pub open spec fn ground_step(p: ParserView, b: BufferView, byte: u8) -> (ParserView, BufferView) {
    let x = b.cursor_x as int;
    let y = b.cursor_y as int;
    if byte == 0x1b {
        (
            ParserView {
                state: ParserState::Escape,
                params: Seq::empty(),
                intermediate: Seq::empty(),
                ..p
            },
            b,
        )
    } else if byte == 13 {
        (p, b.move_cursor(0, y))
    } else if byte == 10 || byte == 11 || byte == 12 {
        (p, line_feed(p, b))
    } else if byte == 8 {
        if x > 0 {
            (p, b.move_cursor(x - 1, y))
        } else {
            (p, b)
        }
    } else if byte == 9 {
        (p, b.move_cursor(min_int(tab_stop(x), b.width - 1), y))
    } else if byte == 7 {
        (p, b)
    } else if byte >= 0x20 {
        (p, print_byte(p, b, byte))
    } else {
        (p, b)
    }
}

/// A byte after ESC.
pub open spec fn escape_step(p: ParserView, b: BufferView, byte: u8) -> (ParserView, BufferView) {
    let x = b.cursor_x as int;
    let y = b.cursor_y as int;
    let ground = ParserView { state: ParserState::Ground, ..p };
    if byte == 91 {
        (ParserView { state: ParserState::Csi, ..p }, b)
    } else if byte == 93 {
        (
            ParserView {
                state: ParserState::Osc,
                osc: Seq::empty(),
                osc_param: 0,
                params: Seq::empty(),
                ..p
            },
            b,
        )
    } else if byte == 80 {
        (ParserView { state: ParserState::Dcs, ..p }, b)
    } else if byte == 77 {
        if y == p.scroll_top {
            (ground, b.scroll_down_region(p.scroll_top as int, p.scroll_bottom as int, 1))
        } else if y > 0 {
            (ground, b.move_cursor(x, y - 1))
        } else {
            (ground, b)
        }
    } else if byte == 55 {
        (ground, b.save_cursor())
    } else if byte == 56 {
        (ground, b.restore_cursor())
    } else if byte == 68 {
        (ground, line_feed(p, b))
    } else if byte == 69 {
        let b1 = line_feed(p, b);
        (ground, b1.move_cursor(0, b1.cursor_y as int))
    } else {
        (ground, b)
    }
}

/// Parameter `i`, or 0 where it is missing.
pub open spec fn param(ps: Seq<u32>, i: int) -> int {
    if 0 <= i < ps.len() {
        ps[i] as int
    } else {
        0
    }
}

/// The count or position of a sequence: its first parameter, at least 1.
pub open spec fn count_param(ps: Seq<u32>) -> int {
    if param(ps, 0) >= 1 {
        param(ps, 0)
    } else {
        1
    }
}

/// `ESC [ top ; bottom r`: set the scrolling region and put the cursor at its top.
pub open spec fn set_region(p: ParserView, b: BufferView) -> (ParserView, BufferView) {
    let h = b.height as int;
    let top = count_param(p.params);
    let bottom_raw: u32 = if p.params.len() > 1 {
        p.params[1]
    } else {
        b.height as u32
    };
    let bottom = if bottom_raw >= 1 {
        bottom_raw as int
    } else {
        1
    };
    let st = min_int(top - 1, h - 1);
    let sb = min_int(bottom, h);
    let st2 = if st >= sb {
        0
    } else {
        st
    };
    let sb2 = if st >= sb {
        h
    } else {
        sb
    };
    (
        ParserView { scroll_top: st2 as usize, scroll_bottom: sb2 as usize, ..p },
        b.move_cursor(0, st2),
    )
}

/// What the final byte `f` of a control sequence does.
pub open spec fn csi_dispatch(p: ParserView, b: BufferView, f: u8) -> (ParserView, BufferView) {
    let x = b.cursor_x as int;
    let y = b.cursor_y as int;
    let w = b.width as int;
    let h = b.height as int;
    let n = count_param(p.params);
    let mode = param(p.params, 0);
    let space = Cell { char: ' ', attributes: p.attrs };
    if p.intermediate.contains(63u8) && (f == 104 || f == 108) {
        (p, b)
    } else if f == 65 {
        (p, b.move_cursor(x, sat_sub(y, n)))
    } else if f == 66 {
        (p, b.move_cursor(x, min_int(y + n, h - 1)))
    } else if f == 67 {
        (p, b.move_cursor(min_int(x + n, w - 1), y))
    } else if f == 68 {
        (p, b.move_cursor(sat_sub(x, n), y))
    } else if f == 69 {
        (p, b.move_cursor(0, min_int(y + n, h - 1)))
    } else if f == 70 {
        (p, b.move_cursor(0, sat_sub(y, n)))
    } else if f == 71 {
        (p, b.move_cursor(min_int(n - 1, w - 1), y))
    } else if f == 72 || f == 102 {
        let col = if param(p.params, 1) >= 1 {
            param(p.params, 1)
        } else {
            1
        };
        (p, b.move_cursor(min_int(col - 1, w - 1), min_int(n - 1, h - 1)))
    } else if f == 74 {
        if mode == 0 {
            (p, b.clear_to_end())
        } else if mode == 1 {
            (p, b.clear_from_start())
        } else if mode == 2 || mode == 3 {
            (p, b.clear())
        } else {
            (p, b)
        }
    } else if f == 75 {
        if mode == 0 {
            if y < b.lines.len() {
                (p, b.fill(y, x, b.lines[y].cells.len() as int, space))
            } else {
                (p, b)
            }
        } else if mode == 1 {
            if y < b.lines.len() {
                (p, b.fill(y, 0, min_int(x + 1, b.lines[y].cells.len() as int), space))
            } else {
                (p, b)
            }
        } else if mode == 2 {
            (p, b.clear_line(y))
        } else {
            (p, b)
        }
    } else if f == 76 {
        (p, b.insert_lines(y, n))
    } else if f == 77 {
        (p, b.delete_lines(y, n))
    } else if f == 80 {
        (p, b.delete_chars(x, y, n))
    } else if f == 83 {
        (p, b.scroll_up_region(p.scroll_top as int, p.scroll_bottom as int, n))
    } else if f == 84 {
        (p, b.scroll_down_region(p.scroll_top as int, p.scroll_bottom as int, n))
    } else if f == 88 {
        (p, b.erase_chars(x, y, n))
    } else if f == 100 {
        (p, b.move_cursor(x, min_int(n - 1, h - 1)))
    } else if f == 109 {
        (ParserView { attrs: sgr(p.attrs, p.params), ..p }, b)
    } else if f == 114 {
        set_region(p, b)
    } else if f == 115 {
        (p, b.save_cursor())
    } else if f == 117 {
        (p, b.restore_cursor())
    } else {
        (p, b)
    }
}

/// Where the final byte `f` of a control sequence is defined: the sequences that
/// clamp to the last row or column need one, a count added to the cursor must fit
/// in a `usize`, deleting characters needs the cursor within its line, and
/// inserting lines needs the cursor's row to exist.
pub open spec fn csi_ok(p: ParserView, b: BufferView, f: u8) -> bool {
    let x = b.cursor_x as int;
    let y = b.cursor_y as int;
    let n = count_param(p.params);
    if p.intermediate.contains(63u8) && (f == 104 || f == 108) {
        true
    } else if f == 66 || f == 69 {
        b.height >= 1 && y + n <= usize::MAX
    } else if f == 100 || f == 114 {
        b.height >= 1
    } else if f == 67 {
        b.width >= 1 && x + n <= usize::MAX
    } else if f == 71 {
        b.width >= 1
    } else if f == 72 || f == 102 {
        b.width >= 1 && b.height >= 1
    } else if f == 80 {
        y >= b.lines.len() || (x <= b.lines[y].cells.len() && x + n <= usize::MAX)
    } else if f == 88 {
        y >= b.lines.len() || x + n <= usize::MAX
    } else if f == 76 {
        b.height + b.scrollback <= usize::MAX && y <= b.lines.len()
    } else {
        true
    }
}

/// The colour of SGR codes 30..37 and 40..47, by offset.
pub open spec fn named_color(k: int) -> Color {
    if k == 0 {
        Color::Black
    } else if k == 1 {
        Color::Red
    } else if k == 2 {
        Color::Green
    } else if k == 3 {
        Color::Yellow
    } else if k == 4 {
        Color::Blue
    } else if k == 5 {
        Color::Magenta
    } else if k == 6 {
        Color::Cyan
    } else {
        Color::White
    }
}

/// The colour of SGR codes 90..97 and 100..107, by offset.
pub open spec fn bright_color(k: int) -> Color {
    if k == 0 {
        Color::BrightBlack
    } else if k == 1 {
        Color::BrightRed
    } else if k == 2 {
        Color::BrightGreen
    } else if k == 3 {
        Color::BrightYellow
    } else if k == 4 {
        Color::BrightBlue
    } else if k == 5 {
        Color::BrightMagenta
    } else if k == 6 {
        Color::BrightCyan
    } else {
        Color::BrightWhite
    }
}

/// The colour that follows code 38 or 48 at `i`: `5;n` for palette entry `n`, or
/// `2;r;g;b`, with the number of parameters it takes beyond the code.
pub open spec fn extended_color(ps: Seq<u32>, i: int) -> Option<(Color, int)> {
    let rest = ps.len() - i;
    if rest > 1 {
        if ps[i + 1] == 5 {
            if rest > 2 {
                Some((Color::Indexed(ps[i + 2] as u8), 2))
            } else {
                None
            }
        } else if ps[i + 1] == 2 {
            if rest > 4 {
                Some((Color::Rgb(ps[i + 2] as u8, ps[i + 3] as u8, ps[i + 4] as u8), 4))
            } else {
                None
            }
        } else {
            None
        }
    } else {
        None
    }
}

/// The attributes after SGR code `ps[i]`, with the number of further
/// parameters the code takes.
pub open spec fn sgr_code(a: CellAttributes, ps: Seq<u32>, i: int) -> (CellAttributes, int) {
    let code = ps[i] as int;
    if code == 0 {
        (plain_attrs(), 0)
    } else if code == 1 {
        (CellAttributes { bold: true, ..a }, 0)
    } else if code == 2 {
        (CellAttributes { dim: true, ..a }, 0)
    } else if code == 3 {
        (CellAttributes { italic: true, ..a }, 0)
    } else if code == 4 {
        (CellAttributes { underline: true, ..a }, 0)
    } else if code == 7 {
        (CellAttributes { reverse: true, ..a }, 0)
    } else if code == 9 {
        (CellAttributes { strikethrough: true, ..a }, 0)
    } else if code == 22 {
        (CellAttributes { bold: false, dim: false, ..a }, 0)
    } else if code == 23 {
        (CellAttributes { italic: false, ..a }, 0)
    } else if code == 24 {
        (CellAttributes { underline: false, ..a }, 0)
    } else if code == 27 {
        (CellAttributes { reverse: false, ..a }, 0)
    } else if code == 29 {
        (CellAttributes { strikethrough: false, ..a }, 0)
    } else if 30 <= code <= 37 {
        (CellAttributes { foreground: Some(named_color(code - 30)), ..a }, 0)
    } else if code == 38 {
        match extended_color(ps, i) {
            Some((c, k)) => (CellAttributes { foreground: Some(c), ..a }, k),
            None => (a, 0),
        }
    } else if code == 39 {
        (CellAttributes { foreground: None, ..a }, 0)
    } else if 40 <= code <= 47 {
        (CellAttributes { background: Some(named_color(code - 40)), ..a }, 0)
    } else if code == 48 {
        match extended_color(ps, i) {
            Some((c, k)) => (CellAttributes { background: Some(c), ..a }, k),
            None => (a, 0),
        }
    } else if code == 49 {
        (CellAttributes { background: None, ..a }, 0)
    } else if 90 <= code <= 97 {
        (CellAttributes { foreground: Some(bright_color(code - 90)), ..a }, 0)
    } else if 100 <= code <= 107 {
        (CellAttributes { background: Some(bright_color(code - 100)), ..a }, 0)
    } else {
        (a, 0)
    }
}

/// The attributes after the SGR codes from `ps[i]` on.
pub open spec fn sgr_from(a: CellAttributes, ps: Seq<u32>, i: int) -> CellAttributes
    decreases ps.len() - i,
{
    if i < 0 || i >= ps.len() {
        a
    } else {
        let (a1, k) = sgr_code(a, ps, i);
        if k >= 0 {
            sgr_from(a1, ps, i + k + 1)
        } else {
            a1
        }
    }
}

/// `ESC [ ... m`: the attributes after the SGR codes `ps`; no code at all resets them.
pub open spec fn sgr(a: CellAttributes, ps: Seq<u32>) -> CellAttributes {
    if ps.len() == 0 {
        plain_attrs()
    } else {
        sgr_from(a, ps, 0)
    }
}

/// The last parameter (0 where there is none yet) with the digit `byte - '0'`
/// appended; `:` to `?` count as the digits 10 to 15.
pub open spec fn digit_appended(params: Seq<u32>, byte: u8) -> int {
    let last = if params.len() == 0 {
        0
    } else {
        params.last() as int
    };
    last * 10 + (byte - 48)
}

/// A byte inside a control sequence: a final byte runs it; `;` ends the current
/// parameter (an empty one, 0, where none was begun) and opens the next; a digit
/// is appended to the current parameter (opening one where none was begun).
pub open spec fn csi_step(p: ParserView, b: BufferView, byte: u8) -> (ParserView, BufferView) {
    if 0x40 <= byte <= 0x7e {
        let (p1, b1) = csi_dispatch(p, b, byte);
        (
            ParserView {
                state: ParserState::Ground,
                params: Seq::empty(),
                intermediate: Seq::empty(),
                ..p1
            },
            b1,
        )
    } else if byte == 0x3b {
        let ps = if p.params.len() == 0 {
            seq![0u32]
        } else {
            p.params
        };
        (ParserView { params: ps.push(0), ..p }, b)
    } else if 0x30 <= byte <= 0x3f {
        let ps = if p.params.len() == 0 {
            seq![0u32]
        } else {
            p.params
        };
        (ParserView { params: ps.update(ps.len() - 1, digit_appended(p.params, byte) as u32), ..p }, b)
    } else if 0x20 <= byte <= 0x2f {
        (ParserView { intermediate: p.intermediate.push(byte), ..p }, b)
    } else {
        (p, b)
    }
}

/// What `String::from_utf8_lossy` returns for a byte string.
pub uninterp spec fn spec_utf8_lossy(bytes: Seq<u8>) -> Seq<char>;

/// Calls `String::from_utf8_lossy`. The result is named by `spec_utf8_lossy`; for
/// valid UTF-8 it is stated to be the decoded characters. How invalid sequences
/// are replaced is left unsaid.
#[verifier::external_body]
fn utf8_lossy(bytes: &[u8]) -> (r: String)
    ensures
        r@ == spec_utf8_lossy(bytes@),
        valid_utf8(bytes@) ==> r@ == decode_utf8(bytes@),
{
    String::from_utf8_lossy(bytes).into_owned()
}

/// The text of an operating-system command: its bytes decoded where they are
/// valid UTF-8, else what `String::from_utf8_lossy` makes of them.
pub open spec fn osc_text(bytes: Seq<u8>) -> Seq<char> {
    if valid_utf8(bytes) {
        decode_utf8(bytes)
    } else {
        spec_utf8_lossy(bytes)
    }
}

/// The first index at or after `i` where `s` holds `c`.
pub open spec fn index_of_from(s: Seq<char>, c: char, i: int) -> Option<int>
    decreases s.len() - i,
{
    if i < 0 || i >= s.len() {
        None
    } else if s[i] == c {
        Some(i)
    } else {
        index_of_from(s, c, i + 1)
    }
}

/// An operating-system command, once complete: `0;`, `1;` or `2;` before a text
/// sets the title to it, and a text without `;` is taken as the title.
pub open spec fn process_osc(p: ParserView) -> ParserView {
    match osc_title(osc_text(p.osc)) {
        Some(t) => ParserView { title: t, ..p },
        None => p,
    }
}

/// The title that the text of an operating-system command sets, if any: the text
/// after `0;`, `1;` or `2;` (a number up to 2 before the first `;`), or the whole
/// text where it holds no `;`.
pub open spec fn osc_title(data: Seq<char>) -> Option<Seq<char>> {
    match index_of_from(data, ';', 0) {
        Some(k) => match parse_uint(encode_utf8(data.take(k)), u32::MAX as int) {
            Some(v) => if v <= 2 {
                Some(data.skip(k + 1))
            } else {
                None
            },
            None => None,
        },
        None => Some(data),
    }
}

/// A byte of an operating-system command.
pub open spec fn osc_step(p: ParserView, byte: u8) -> ParserView {
    if byte == 7 || byte == 0x9c {
        ParserView { state: ParserState::Ground, ..process_osc(p) }
    } else if byte == 59 && p.osc.len() == 0 {
        p
    } else if byte >= 0x20 {
        ParserView { osc: p.osc.push(byte), ..p }
    } else {
        p
    }
}

/// A byte of a device control string: only its terminator matters.
pub open spec fn dcs_step(p: ParserView, byte: u8) -> ParserView {
    if byte == 0x9c || byte == 0x5c {
        ParserView { state: ParserState::Ground, ..p }
    } else {
        p
    }
}

/// What one byte does to the parser and the buffer.
pub open spec fn step(p: ParserView, b: BufferView, byte: u8) -> (ParserView, BufferView) {
    match p.state {
        ParserState::Ground => ground_step(p, b, byte),
        ParserState::Escape => escape_step(p, b, byte),
        ParserState::Csi => csi_step(p, b, byte),
        ParserState::Osc => (osc_step(p, byte), b),
        ParserState::Dcs => (dcs_step(p, byte), b),
    }
}

/// Where one byte is defined: the cases that clamp to the last row or column need
/// one, a line feed needs the scrolling region, a tab stop and a parameter must
/// fit in their integer types, and see `csi_ok`.
pub open spec fn step_ok(p: ParserView, b: BufferView, byte: u8) -> bool {
    let x = b.cursor_x as int;
    match p.state {
        ParserState::Ground => if byte == 10 || byte == 11 || byte == 12 {
            line_feed_ok(p, b)
        } else if byte == 9 {
            b.width >= 1 && tab_stop(x) <= usize::MAX
        } else if byte >= 0x20 {
            x + 1 < b.width || b.height >= 1
        } else {
            true
        },
        ParserState::Escape => if byte == 68 || byte == 69 {
            line_feed_ok(p, b)
        } else {
            true
        },
        ParserState::Csi => if 0x40 <= byte <= 0x7e {
            csi_ok(p, b, byte)
        } else if byte == 0x3b {
            true
        } else if 0x30 <= byte <= 0x3f {
            digit_appended(p.params, byte) <= u32::MAX
        } else {
            true
        },
        _ => true,
    }
}

/// The bytes `d` applied one after another.
pub open spec fn run(p: ParserView, b: BufferView, d: Seq<u8>) -> (ParserView, BufferView)
    decreases d.len(),
{
    if d.len() == 0 {
        (p, b)
    } else {
        let (p1, b1) = run(p, b, d.drop_last());
        step(p1, b1, d.last())
    }
}

/// Every byte of `d` is defined where it is applied.
pub open spec fn run_ok(p: ParserView, b: BufferView, d: Seq<u8>) -> bool
    decreases d.len(),
{
    if d.len() == 0 {
        true
    } else {
        let (p1, b1) = run(p, b, d.drop_last());
        run_ok(p, b, d.drop_last()) && step_ok(p1, b1, d.last())
    }
}

/// A parser that has never seen a buffer takes the viewport as its scrolling region.
pub open spec fn with_region(p: ParserView, b: BufferView) -> ParserView {
    if p.scroll_bottom == 0 {
        ParserView { scroll_bottom: b.height, ..p }
    } else {
        p
    }
}

/// What `parse` does with the bytes `d`.
pub open spec fn parse_run(p: ParserView, b: BufferView, d: Seq<u8>) -> (ParserView, BufferView) {
    run(with_region(p, b), b, d)
}

/// Where `parse` is defined for the bytes `d`.
pub open spec fn parse_ok(p: ParserView, b: BufferView, d: Seq<u8>) -> bool {
    run_ok(with_region(p, b), b, d)
}

/// How many bytes of `d`, from `i` on, are applied before one is met that is not
/// defined where it stands.
pub open spec fn accepted_from(p: ParserView, b: BufferView, d: Seq<u8>, i: int) -> int
    decreases d.len() - i,
{
    if i < 0 || i >= d.len() {
        d.len() as int
    } else if step_ok(run(p, b, d.take(i)).0, run(p, b, d.take(i)).1, d[i]) {
        accepted_from(p, b, d, i + 1)
    } else {
        i
    }
}

/// How many bytes of `d` `parse_prefix` applies.
pub open spec fn accepted(p: ParserView, b: BufferView, d: Seq<u8>) -> int {
    accepted_from(with_region(p, b), b, d, 0)
}

/// The parser of the terminal's output stream.
pub struct Parser {
    state: ParserState,
    params: Vec<u32>,
    intermediate: Vec<u8>,
    current_attrs: CellAttributes,
    scroll_top: usize,
    scroll_bottom: usize,
    title: String,
    osc_string: Vec<u8>,
    osc_param: u32,
}

impl View for Parser {
    type V = ParserView;

    closed spec fn view(&self) -> ParserView {
        ParserView {
            state: self.state,
            params: self.params@,
            intermediate: self.intermediate@,
            attrs: self.current_attrs,
            scroll_top: self.scroll_top,
            scroll_bottom: self.scroll_bottom,
            title: self.title@,
            osc: self.osc_string@,
            osc_param: self.osc_param,
        }
    }
}

/// Whether `v` holds `b`.
fn contains_byte(v: &Vec<u8>, b: u8) -> (r: bool)
    ensures
        r == v@.contains(b),
{
    let mut i: usize = 0;
    while i < v.len()
        invariant
            i <= v@.len(),
            forall|j: int| 0 <= j < i ==> v@[j] != b,
        decreases v@.len() - i,
    {
        if v[i] == b {
            return true;
        }
        i = i + 1;
    }
    false
}

/// `min(y + n, h - 1)` for a row `y` and a count `n`, without overflow.
fn down_by(y: usize, n: usize, h: usize) -> (r: usize)
    requires
        h >= 1,
    ensures
        r == min_int(y + n, h - 1),
{
    if y >= h - 1 || n >= h - 1 - y {
        h - 1
    } else {
        y + n
    }
}

fn sat_sub_usize(a: usize, b: usize) -> (r: usize)
    ensures
        r == sat_sub(a as int, b as int),
{
    if a >= b {
        a - b
    } else {
        0
    }
}

fn min_usize(a: usize, b: usize) -> (r: usize)
    ensures
        r == min_int(a as int, b as int),
{
    if a <= b {
        a
    } else {
        b
    }
}

fn named_color_of(k: u32) -> (c: Color)
    ensures
        c == named_color(k as int),
{
    if k == 0 {
        Color::Black
    } else if k == 1 {
        Color::Red
    } else if k == 2 {
        Color::Green
    } else if k == 3 {
        Color::Yellow
    } else if k == 4 {
        Color::Blue
    } else if k == 5 {
        Color::Magenta
    } else if k == 6 {
        Color::Cyan
    } else {
        Color::White
    }
}

fn bright_color_of(k: u32) -> (c: Color)
    ensures
        c == bright_color(k as int),
{
    if k == 0 {
        Color::BrightBlack
    } else if k == 1 {
        Color::BrightRed
    } else if k == 2 {
        Color::BrightGreen
    } else if k == 3 {
        Color::BrightYellow
    } else if k == 4 {
        Color::BrightBlue
    } else if k == 5 {
        Color::BrightMagenta
    } else if k == 6 {
        Color::BrightCyan
    } else {
        Color::BrightWhite
    }
}

fn extended_color_of(ps: &Vec<u32>, i: usize) -> (r: Option<(Color, usize)>)
    requires
        i < ps@.len(),
    ensures
        match extended_color(ps@, i as int) {
            Some((c, k)) => r == Some((c, k as usize)),
            None => r is None,
        },
{
    let rest = ps.len() - i;
    if rest > 1 {
        if ps[i + 1] == 5 {
            if rest > 2 {
                Some((Color::Indexed(ps[i + 2] as u8), 2))
            } else {
                None
            }
        } else if ps[i + 1] == 2 {
            if rest > 4 {
                Some((Color::Rgb(ps[i + 2] as u8, ps[i + 3] as u8, ps[i + 4] as u8), 4))
            } else {
                None
            }
        } else {
            None
        }
    } else {
        None
    }
}

/// One SGR code: the new attributes and the number of further parameters taken.
fn sgr_code_of(a: CellAttributes, ps: &Vec<u32>, i: usize) -> (r: (CellAttributes, usize))
    requires
        i < ps@.len(),
    ensures
        r.0 == sgr_code(a, ps@, i as int).0,
        r.1 == sgr_code(a, ps@, i as int).1,
        i + r.1 < ps@.len(),
{
    let code = ps[i];
    let mut a = a;
    if code == 0 {
        a = CellAttributes::default();
    } else if code == 1 {
        a.bold = true;
    } else if code == 2 {
        a.dim = true;
    } else if code == 3 {
        a.italic = true;
    } else if code == 4 {
        a.underline = true;
    } else if code == 7 {
        a.reverse = true;
    } else if code == 9 {
        a.strikethrough = true;
    } else if code == 22 {
        a.bold = false;
        a.dim = false;
    } else if code == 23 {
        a.italic = false;
    } else if code == 24 {
        a.underline = false;
    } else if code == 27 {
        a.reverse = false;
    } else if code == 29 {
        a.strikethrough = false;
    } else if 30 <= code && code <= 37 {
        a.foreground = Some(named_color_of(code - 30));
    } else if code == 38 {
        match extended_color_of(ps, i) {
            Some((c, k)) => {
                a.foreground = Some(c);
                return (a, k);
            },
            None => {},
        }
    } else if code == 39 {
        a.foreground = None;
    } else if 40 <= code && code <= 47 {
        a.background = Some(named_color_of(code - 40));
    } else if code == 48 {
        match extended_color_of(ps, i) {
            Some((c, k)) => {
                a.background = Some(c);
                return (a, k);
            },
            None => {},
        }
    } else if code == 49 {
        a.background = None;
    } else if 90 <= code && code <= 97 {
        a.foreground = Some(bright_color_of(code - 90));
    } else if 100 <= code && code <= 107 {
        a.background = Some(bright_color_of(code - 100));
    }
    (a, 0)
}

/// The attributes after the SGR codes `ps` (see `sgr`).
pub fn apply_sgr(a: CellAttributes, ps: &Vec<u32>) -> (r: CellAttributes)
    ensures
        r == sgr(a, ps@),
{
    if ps.len() == 0 {
        return CellAttributes::default();
    }
    let mut cur = a;
    let mut i: usize = 0;
    while i < ps.len()
        invariant
            i <= ps@.len(),
            ps@.len() > 0,
            sgr_from(cur, ps@, i as int) == sgr_from(a, ps@, 0),
        decreases ps@.len() - i,
    {
        let (next, k) = sgr_code_of(cur, ps, i);
        assert(sgr_from(cur, ps@, i as int) == sgr_from(next, ps@, i + k + 1));
        cur = next;
        i = i + k + 1;
    }
    cur
}

impl Parser {
    /// A parser in the ground state, with plain attributes, no title and no
    /// scrolling region yet.
    pub fn new() -> (p: Self)
        ensures
            p@ == (ParserView {
                state: ParserState::Ground,
                params: Seq::empty(),
                intermediate: Seq::empty(),
                attrs: plain_attrs(),
                scroll_top: 0,
                scroll_bottom: 0,
                title: Seq::empty(),
                osc: Seq::empty(),
                osc_param: 0,
            }),
    {
        let p = Parser {
            state: ParserState::Ground,
            params: Vec::new(),
            intermediate: Vec::new(),
            current_attrs: CellAttributes::default(),
            scroll_top: 0,
            scroll_bottom: 0,
            title: String::new(),
            osc_string: Vec::new(),
            osc_param: 0,
        };
        assert(p@ =~= ParserView {
            state: ParserState::Ground,
            params: Seq::empty(),
            intermediate: Seq::empty(),
            attrs: plain_attrs(),
            scroll_top: 0,
            scroll_bottom: 0,
            title: Seq::empty(),
            osc: Seq::empty(),
            osc_param: 0,
        });
        p
    }

    /// The attributes that printed characters get.
    pub fn current_attrs(&self) -> (r: &CellAttributes)
        ensures
            *r == self@.attrs,
    {
        &self.current_attrs
    }

    /// The window title last set by the program.
    pub fn title(&self) -> (r: &str)
        ensures
            r@ == self@.title,
    {
        self.title.as_str()
    }

    fn line_feed(&self, buffer: &mut Buffer)
        requires
            line_feed_ok(self@, old(buffer)@),
        ensures
            final(buffer)@ == line_feed(self@, old(buffer)@),
    {
        let (x, y) = buffer.cursor_position();
        if y >= self.scroll_bottom - 1 {
            buffer.scroll_up_in_region(self.scroll_top, self.scroll_bottom, 1);
        } else {
            let h = buffer.viewport_height();
            let ny = down_by(y, 1, h);
            buffer.move_cursor(x, ny);
        }
    }

    fn ground(&mut self, buffer: &mut Buffer, byte: u8)
        requires
            old(self)@.state == ParserState::Ground,
            step_ok(old(self)@, old(buffer)@, byte),
        ensures
            (final(self)@, final(buffer)@) == ground_step(old(self)@, old(buffer)@, byte),
    {
        if byte == 0x1b {
            self.state = ParserState::Escape;
            self.params.clear();
            self.intermediate.clear();
            assert(self@ =~= ground_step(old(self)@, old(buffer)@, byte).0);
        } else if byte == 13 {
            let (_, y) = buffer.cursor_position();
            buffer.move_cursor(0, y);
        } else if byte == 10 || byte == 11 || byte == 12 {
            self.line_feed(buffer);
        } else if byte == 8 {
            let (x, y) = buffer.cursor_position();
            if x > 0 {
                buffer.move_cursor(x - 1, y);
            }
        } else if byte == 9 {
            let (x, y) = buffer.cursor_position();
            let w = buffer.viewport_width();
            let q = x / 8;
            let lim = (w - 1) / 8;
            let new_x = if q < lim {
                (q + 1) * 8
            } else {
                w - 1
            };
            assert(new_x == min_int(tab_stop(x as int), w - 1));
            buffer.move_cursor(new_x, y);
        } else if byte == 7 {
        } else if byte >= 0x20 {
            let (x, y) = buffer.cursor_position();
            let w = buffer.viewport_width();
            let cell = Cell { char: byte as char, attributes: self.current_attrs };
            if x < w {
                buffer.set_cell(x, y, cell);
            }
            if w == 0 || x >= w - 1 {
                let h = buffer.viewport_height();
                let ny = down_by(y, 1, h);
                buffer.move_cursor(0, ny);
            } else {
                buffer.move_cursor(x + 1, y);
            }
        }
    }

    fn escape(&mut self, buffer: &mut Buffer, byte: u8)
        requires
            old(self)@.state == ParserState::Escape,
            step_ok(old(self)@, old(buffer)@, byte),
        ensures
            (final(self)@, final(buffer)@) == escape_step(old(self)@, old(buffer)@, byte),
    {
        if byte == 91 {
            self.state = ParserState::Csi;
        } else if byte == 93 {
            self.state = ParserState::Osc;
            self.osc_string.clear();
            self.osc_param = 0;
            self.params.clear();
        } else if byte == 80 {
            self.state = ParserState::Dcs;
        } else if byte == 77 {
            let (x, y) = buffer.cursor_position();
            if y == self.scroll_top {
                buffer.scroll_down_in_region(self.scroll_top, self.scroll_bottom, 1);
            } else if y > 0 {
                buffer.move_cursor(x, y - 1);
            }
            self.state = ParserState::Ground;
        } else if byte == 55 {
            buffer.save_cursor();
            self.state = ParserState::Ground;
        } else if byte == 56 {
            buffer.restore_cursor();
            self.state = ParserState::Ground;
        } else if byte == 68 {
            self.line_feed(buffer);
            self.state = ParserState::Ground;
        } else if byte == 69 {
            self.line_feed(buffer);
            let (_, y) = buffer.cursor_position();
            buffer.move_cursor(0, y);
            self.state = ParserState::Ground;
        } else {
            self.state = ParserState::Ground;
        }
        assert(self@ =~= escape_step(old(self)@, old(buffer)@, byte).0);
    }
}

proof fn lemma_tab_stop_fits(x: usize)
    ensures
        (tab_stop(x as int) <= usize::MAX) == (x / 8 < usize::MAX / 8),
{
    assert((tab_stop(x as int) <= usize::MAX) == (x / 8 < usize::MAX / 8)) by (nonlinear_arith)
        requires
            usize::MAX % 8 == 7,
    ;
}

proof fn lemma_index_of_from(s: Seq<char>, c: char, i: int)
    requires
        0 <= i,
    ensures
        index_of_from(s, c, i) matches Some(k) ==> i <= k < s.len() && s[k] == c,
    decreases s.len() - i,
{
    if i < s.len() && s[i] != c {
        lemma_index_of_from(s, c, i + 1);
    }
}

/// The first position of `c` in `s`.
fn find_char(s: &str, c: char) -> (r: Option<usize>)
    ensures
        match index_of_from(s@, c, 0) {
            Some(k) => r == Some(k as usize),
            None => r is None,
        },
{
    let n = s.unicode_len();
    let mut k: usize = 0;
    while k < n
        invariant
            k <= n,
            n == s@.len(),
            index_of_from(s@, c, 0) == index_of_from(s@, c, k as int),
        decreases n - k,
    {
        if s.get_char(k) == c {
            return Some(k);
        }
        k = k + 1;
    }
    None
}

/// The title that the decoded text `data` of an operating-system command sets,
/// if any (see `osc_title`).
pub fn title_of_osc(data: &str) -> (r: Option<String>)
    ensures
        match r {
            Some(t) => osc_title(data@) == Some(t@),
            None => osc_title(data@) is None,
        },
{
    match find_char(data, ';') {
        Some(k) => {
            proof {
                lemma_index_of_from(data@, ';', 0);
            }
            let n = data.unicode_len();
            let param_str = data.substring_char(0, k);
            assert(param_str@ =~= data@.take(k as int));
            match parse_uint_str(param_str, u32::MAX) {
                Some(v) => {
                    if v <= 2 {
                        let value = data.substring_char(k + 1, n);
                        assert(value@ =~= data@.skip(k + 1));
                        Some(value.to_owned())
                    } else {
                        None
                    }
                },
                None => None,
            }
        },
        None => Some(data.to_owned()),
    }
}

/// Parameter `i` of a sequence, or 0 where it is missing.
fn param_of(ps: &Vec<u32>, i: usize) -> (r: u32)
    ensures
        r as int == param(ps@, i as int),
{
    if i < ps.len() {
        ps[i]
    } else {
        0
    }
}

impl Parser {
    /// Run the control sequence whose parameters and intermediate bytes the
    /// parser holds and whose final byte is `final_byte` (see `csi_dispatch`).
    /// Defined where `csi_ok` holds.
    pub fn execute_csi(&mut self, buffer: &mut Buffer, final_byte: u8)
        requires
            csi_ok(old(self)@, old(buffer)@, final_byte),
        ensures
            (final(self)@, final(buffer)@) == csi_dispatch(old(self)@, old(buffer)@, final_byte),
    {
        let f = final_byte;
        let (x, y) = buffer.cursor_position();
        let w = buffer.viewport_width();
        let h = buffer.viewport_height();
        let p0 = param_of(&self.params, 0);
        let n: usize = if p0 >= 1 {
            p0 as usize
        } else {
            1
        };
        if contains_byte(&self.intermediate, 63) && (f == 104 || f == 108) {
            return ;
        }
        if f == 65 {
            buffer.move_cursor(x, sat_sub_usize(y, n));
        } else if f == 66 {
            buffer.move_cursor(x, down_by(y, n, h));
        } else if f == 67 {
            buffer.move_cursor(down_by(x, n, w), y);
        } else if f == 68 {
            buffer.move_cursor(sat_sub_usize(x, n), y);
        } else if f == 69 {
            buffer.move_cursor(0, down_by(y, n, h));
        } else if f == 70 {
            buffer.move_cursor(0, sat_sub_usize(y, n));
        } else if f == 71 {
            buffer.move_cursor(min_usize(n - 1, w - 1), y);
        } else if f == 72 || f == 102 {
            let p1 = param_of(&self.params, 1);
            let col: usize = if p1 >= 1 {
                p1 as usize
            } else {
                1
            };
            buffer.move_cursor(min_usize(col - 1, w - 1), min_usize(n - 1, h - 1));
        } else if f == 74 {
            if p0 == 0 {
                buffer.clear_from_cursor_to_end();
            } else if p0 == 1 {
                buffer.clear_from_start_to_cursor();
            } else if p0 == 2 || p0 == 3 {
                buffer.clear();
            }
        } else if f == 75 {
            let space = Cell { char: ' ', attributes: self.current_attrs };
            if p0 == 0 {
                if y < buffer.lines().len() {
                    let len = buffer.lines()[y].cells.len();
                    buffer.fill(y, x, len, space);
                }
            } else if p0 == 1 {
                if y < buffer.lines().len() {
                    let len = buffer.lines()[y].cells.len();
                    let end = if x < len {
                        x + 1
                    } else {
                        len
                    };
                    buffer.fill(y, 0, end, space);
                }
            } else if p0 == 2 {
                buffer.clear_line(y);
            }
        } else if f == 76 {
            buffer.insert_lines(y, n);
        } else if f == 77 {
            buffer.delete_lines(y, n);
        } else if f == 80 {
            buffer.delete_chars(x, y, n);
        } else if f == 83 {
            buffer.scroll_up_in_region(self.scroll_top, self.scroll_bottom, n);
        } else if f == 84 {
            buffer.scroll_down_in_region(self.scroll_top, self.scroll_bottom, n);
        } else if f == 88 {
            buffer.erase_chars(x, y, n);
        } else if f == 100 {
            buffer.move_cursor(x, min_usize(n - 1, h - 1));
        } else if f == 109 {
            self.current_attrs = apply_sgr(self.current_attrs, &self.params);
        } else if f == 114 {
            let bottom_raw: u32 = if self.params.len() > 1 {
                self.params[1]
            } else {
                h as u32
            };
            let bottom: usize = if bottom_raw >= 1 {
                bottom_raw as usize
            } else {
                1
            };
            let mut st = min_usize(n - 1, h - 1);
            let mut sb = min_usize(bottom, h);
            if st >= sb {
                st = 0;
                sb = h;
            }
            self.scroll_top = st;
            self.scroll_bottom = sb;
            buffer.move_cursor(0, st);
        } else if f == 115 {
            buffer.save_cursor();
        } else if f == 117 {
            buffer.restore_cursor();
        }
        assert(self@ =~= csi_dispatch(old(self)@, old(buffer)@, final_byte).0);
    }

    fn csi(&mut self, buffer: &mut Buffer, byte: u8)
        requires
            old(self)@.state == ParserState::Csi,
            step_ok(old(self)@, old(buffer)@, byte),
        ensures
            (final(self)@, final(buffer)@) == csi_step(old(self)@, old(buffer)@, byte),
    {
        if 0x40 <= byte && byte <= 0x7e {
            self.execute_csi(buffer, byte);
            self.state = ParserState::Ground;
            self.params.clear();
            self.intermediate.clear();
        } else if byte == 0x3b {
            if self.params.len() == 0 {
                self.params.push(0);
            }
            self.params.push(0);
        } else if 0x30 <= byte && byte <= 0x3f {
            if self.params.len() == 0 {
                self.params.push(0);
            }
            let k = self.params.len() - 1;
            let last = self.params[k];
            self.params.set(k, last * 10 + (byte - 48) as u32);
        } else if 0x20 <= byte && byte <= 0x2f {
            self.intermediate.push(byte);
        }
        assert(self@ =~= csi_step(old(self)@, old(buffer)@, byte).0);
    }

    fn process_osc(&mut self)
        ensures
            final(self)@ == process_osc(old(self)@),
    {
        let data = utf8_lossy(self.osc_string.as_slice());
        match title_of_osc(data.as_str()) {
            Some(t) => {
                self.title = t;
            },
            None => {},
        }
        assert(self@ =~= process_osc(old(self)@));
    }

    fn osc(&mut self, byte: u8)
        requires
            old(self)@.state == ParserState::Osc,
        ensures
            final(self)@ == osc_step(old(self)@, byte),
    {
        if byte == 7 || byte == 0x9c {
            self.process_osc();
            self.state = ParserState::Ground;
        } else if byte == 59 && self.osc_string.len() == 0 {
        } else if byte >= 0x20 {
            self.osc_string.push(byte);
        }
        assert(self@ =~= osc_step(old(self)@, byte));
    }

    fn dcs(&mut self, byte: u8)
        requires
            old(self)@.state == ParserState::Dcs,
        ensures
            final(self)@ == dcs_step(old(self)@, byte),
    {
        if byte == 0x9c || byte == 0x5c {
            self.state = ParserState::Ground;
        }
        assert(self@ =~= dcs_step(old(self)@, byte));
    }

    /// Whether `byte` can be applied now (see `step_ok`).
    pub fn accepts(&self, buffer: &Buffer, byte: u8) -> (r: bool)
        ensures
            r == step_ok(self@, buffer@, byte),
    {
        let (x, y) = buffer.cursor_position();
        let w = buffer.viewport_width();
        let h = buffer.viewport_height();
        match self.state {
            ParserState::Ground => {
                if byte == 10 || byte == 11 || byte == 12 {
                    self.scroll_bottom >= 1 && (y >= self.scroll_bottom - 1 || h >= 1)
                } else if byte == 9 {
                    proof {
                        lemma_tab_stop_fits(x);
                    }
                    w >= 1 && x / 8 < usize::MAX / 8
                } else if byte >= 0x20 {
                    (w >= 1 && x < w - 1) || h >= 1
                } else {
                    true
                }
            },
            ParserState::Escape => {
                if byte == 68 || byte == 69 {
                    self.scroll_bottom >= 1 && (y >= self.scroll_bottom - 1 || h >= 1)
                } else {
                    true
                }
            },
            ParserState::Csi => {
                if 0x40 <= byte && byte <= 0x7e {
                    let f = byte;
                    let p0 = param_of(&self.params, 0);
                    let n: usize = if p0 >= 1 {
                        p0 as usize
                    } else {
                        1
                    };
                    if contains_byte(&self.intermediate, 63) && (f == 104 || f == 108) {
                        true
                    } else if f == 66 || f == 69 {
                        h >= 1 && n <= usize::MAX - y
                    } else if f == 100 || f == 114 {
                        h >= 1
                    } else if f == 67 {
                        w >= 1 && n <= usize::MAX - x
                    } else if f == 71 {
                        w >= 1
                    } else if f == 72 || f == 102 {
                        w >= 1 && h >= 1
                    } else if f == 80 {
                        let lines = buffer.lines();
                        y >= lines.len() || (x <= lines[y].cells.len() && n <= usize::MAX - x)
                    } else if f == 88 {
                        y >= buffer.lines().len() || n <= usize::MAX - x
                    } else if f == 76 {
                        h <= usize::MAX - buffer.scrollback_size() && y <= buffer.lines().len()
                    } else {
                        true
                    }
                } else if byte == 0x3b {
                    true
                } else if 0x30 <= byte && byte <= 0x3f {
                    let last: u64 = if self.params.len() == 0 {
                        0
                    } else {
                        self.params[self.params.len() - 1] as u64
                    };
                    last * 10 + ((byte - 48) as u64) <= 4294967295
                } else {
                    true
                }
            },
            _ => true,
        }
    }

    /// Apply one byte.
    fn step(&mut self, buffer: &mut Buffer, byte: u8)
        requires
            step_ok(old(self)@, old(buffer)@, byte),
        ensures
            (final(self)@, final(buffer)@) == step(old(self)@, old(buffer)@, byte),
    {
        match self.state {
            ParserState::Ground => self.ground(buffer, byte),
            ParserState::Escape => self.escape(buffer, byte),
            ParserState::Csi => self.csi(buffer, byte),
            ParserState::Osc => self.osc(byte),
            ParserState::Dcs => self.dcs(byte),
        }
    }

    /// Apply the bytes of `data` in order, as far as each is defined (see
    /// `step_ok`): returns how many were applied, all of them unless the next one
    /// is not defined where it stands.
    pub fn parse_prefix(&mut self, buffer: &mut Buffer, data: &[u8]) -> (n: usize)
        ensures
            n <= data@.len(),
            n == accepted(old(self)@, old(buffer)@, data@),
            parse_ok(old(self)@, old(buffer)@, data@.take(n as int)),
            (final(self)@, final(buffer)@) == parse_run(old(self)@, old(buffer)@, data@.take(n as int)),
            n < data@.len() ==> !step_ok(
                parse_run(old(self)@, old(buffer)@, data@.take(n as int)).0,
                parse_run(old(self)@, old(buffer)@, data@.take(n as int)).1,
                data@[n as int],
            ),
    {
        if self.scroll_bottom == 0 {
            self.scroll_bottom = buffer.viewport_height();
        }
        let ghost p0 = with_region(old(self)@, old(buffer)@);
        let ghost b0 = old(buffer)@;
        assert(self@ =~= p0);
        assert(data@.take(0) =~= Seq::<u8>::empty());
        let mut i: usize = 0;
        while i < data.len()
            invariant
                i <= data@.len(),
                p0 == with_region(old(self)@, old(buffer)@),
                b0 == old(buffer)@,
                (self@, buffer@) == run(p0, b0, data@.take(i as int)),
                run_ok(p0, b0, data@.take(i as int)),
                accepted_from(p0, b0, data@, 0) == accepted_from(p0, b0, data@, i as int),
            decreases data@.len() - i,
        {
            if !self.accepts(buffer, data[i]) {
                return i;
            }
            proof {
                assert(data@.take(i + 1int).drop_last() =~= data@.take(i as int));
                assert(data@.take(i + 1int).last() == data@[i as int]);
            }
            self.step(buffer, data[i]);
            i = i + 1;
        }
        i
    }

    /// Apply the bytes of `data` in order to the parser and `buffer`. Defined where
    /// every byte is defined where it stands (see `step_ok`).
    pub fn parse(&mut self, buffer: &mut Buffer, data: &[u8])
        requires
            parse_ok(old(self)@, old(buffer)@, data@),
        ensures
            (final(self)@, final(buffer)@) == parse_run(old(self)@, old(buffer)@, data@),
    {
        let n = self.parse_prefix(buffer, data);
        proof {
            let p0 = with_region(old(self)@, old(buffer)@);
            if n < data@.len() {
                lemma_run_ok_prefix(p0, old(buffer)@, data@, n + 1);
                assert(data@.take(n + 1int).drop_last() =~= data@.take(n as int));
                assert(data@.take(n + 1int).last() == data@[n as int]);
            }
            assert(data@.take(data@.len() as int) =~= data@);
        }
    }
}

/// A sequence of bytes that is defined is defined in each of its prefixes.
pub proof fn lemma_run_ok_prefix(p: ParserView, b: BufferView, d: Seq<u8>, k: int)
    requires
        run_ok(p, b, d),
        0 <= k <= d.len(),
    ensures
        run_ok(p, b, d.take(k)),
    decreases d.len(),
{
    if k == d.len() {
        assert(d.take(k) =~= d);
    } else {
        lemma_run_ok_prefix(p, b, d.drop_last(), k);
        assert(d.drop_last().take(k) =~= d.take(k));
    }
}

} // verus!
