//! Properties of the buffer and the parser that span several operations.
use vstd::prelude::*;

use super::color::{bright_colours, standard_colours};
use super::buffer::{
    blank_line, plain_attrs, CellAttributes, Color, min_int, scroll_amount, scrolled_down, scrolled_up, BufferView, Cell, LineView,
};
use super::parser::{
    bright_color, count_param, csi_dispatch, extended_color, named_color, sgr, sgr_code, sgr_from, csi_ok, escape_step, ground_step, line_feed, parse_ok, parse_run, print_byte,
    run, run_ok, set_region, step, step_ok, ParserState, ParserView, with_region,
};

verus! {

/// `run` over two pieces of input is `run` over the first, then over the second.
pub proof fn lemma_run_append(p: ParserView, b: BufferView, a: Seq<u8>, c: Seq<u8>)
    ensures
        run(p, b, a + c) == run(run(p, b, a).0, run(p, b, a).1, c),
        run_ok(p, b, a + c) == (run_ok(p, b, a) && run_ok(run(p, b, a).0, run(p, b, a).1, c)),
    decreases c.len(),
{
    if c.len() == 0 {
        assert(a + c =~= a);
    } else {
        lemma_run_append(p, b, a, c.drop_last());
        assert((a + c).drop_last() =~= a + c.drop_last());
        assert((a + c).last() == c.last());
    }
}

/// The parser's region has a bottom whenever the viewport has a row.
pub open spec fn region_known(p: ParserView, b: BufferView) -> bool {
    p.scroll_bottom == 0 ==> b.height == 0
}

/// A step keeps the viewport's height, and a known region known.
pub proof fn lemma_step_keeps_height(p: ParserView, b: BufferView, byte: u8)
    ensures
        step(p, b, byte).1.height == b.height,
        region_known(p, b) ==> region_known(step(p, b, byte).0, step(p, b, byte).1),
{
    lemma_step_keeps_aside(p, b, byte);
    match p.state {
        ParserState::Csi => {
            if 0x40 <= byte <= 0x7e && byte == 114 {
                assert(set_region(p, b).0.scroll_bottom == 0 ==> b.height == 0);
            }
        },
        _ => {},
    }
}

/// `run` keeps the viewport's height, and a known region known.
pub proof fn lemma_run_keeps_height(p: ParserView, b: BufferView, d: Seq<u8>)
    ensures
        run(p, b, d).1.height == b.height,
        region_known(p, b) ==> region_known(run(p, b, d).0, run(p, b, d).1),
    decreases d.len(),
{
    if d.len() > 0 {
        lemma_run_keeps_height(p, b, d.drop_last());
        let (p1, b1) = run(p, b, d.drop_last());
        lemma_step_keeps_height(p1, b1, d.last());
    }
}

/// Input may arrive in pieces: parsing `a` and then `c` gives what parsing `a`
/// followed by `c` at once gives, and is defined exactly when that is.
pub proof fn law_parse_in_pieces(p: ParserView, b: BufferView, a: Seq<u8>, c: Seq<u8>)
    ensures
        parse_run(p, b, a + c) == parse_run(parse_run(p, b, a).0, parse_run(p, b, a).1, c),
        parse_ok(p, b, a + c) == (parse_ok(p, b, a) && parse_ok(
            parse_run(p, b, a).0,
            parse_run(p, b, a).1,
            c,
        )),
{
    let p0 = with_region(p, b);
    lemma_run_append(p0, b, a, c);
    lemma_run_keeps_height(p0, b, a);
    let (pa, ba) = run(p0, b, a);
    assert(with_region(pa, ba) == pa);
}

/// The cursor, and the saved cursor if any, lie inside the viewport.
pub open spec fn cursor_inside(b: BufferView) -> bool {
    &&& b.cursor_x < b.width
    &&& b.cursor_y < b.height
    &&& (b.saved_cursor matches Some((x, y)) ==> x < b.width && y < b.height)
}

/// Every line is exactly as wide as the viewport.
pub open spec fn lines_fit(b: BufferView) -> bool {
    forall|i: int| 0 <= i < b.lines.len() ==> #[trigger] b.lines[i].cells.len() == b.width
}

/// A screen in good order: cursor inside the viewport and lines as wide as it.
pub open spec fn screen_wf(b: BufferView) -> bool {
    cursor_inside(b) && lines_fit(b)
}

/// Scrolling a region that ends within the lines keeps their number, and
/// scrolling keeps every line `w` cells wide when it was so before.
proof fn lemma_scrolled_fit(lines: Seq<LineView>, top: int, bottom: int, count: int, w: nat)
    ensures
        bottom <= lines.len() ==> scrolled_up(lines, top, bottom, count, w).len() == lines.len(),
        bottom <= lines.len() ==> scrolled_down(lines, top, bottom, count, w).len() == lines.len(),
        (forall|i: int| 0 <= i < lines.len() ==> #[trigger] lines[i].cells.len() == w) ==> (
        forall|i: int|
            0 <= i < scrolled_up(lines, top, bottom, count, w).len() ==> #[trigger] scrolled_up(
                lines,
                top,
                bottom,
                count,
                w,
            )[i].cells.len() == w),
        (forall|i: int| 0 <= i < lines.len() ==> #[trigger] lines[i].cells.len() == w) ==> (
        forall|i: int|
            0 <= i < scrolled_down(lines, top, bottom, count, w).len() ==> #[trigger] scrolled_down(
                lines,
                top,
                bottom,
                count,
                w,
            )[i].cells.len() == w),
{
    let b = min_int(bottom, lines.len() as int);
    let up = scrolled_up(lines, top, bottom, count, w);
    let down = scrolled_down(lines, top, bottom, count, w);
    if forall|i: int| 0 <= i < lines.len() ==> #[trigger] lines[i].cells.len() == w {
        if 0 <= top < b {
            let k = scroll_amount(count, top, b);
            assert forall|i: int| 0 <= i < up.len() implies #[trigger] up[i].cells.len() == w by {
                if i < top {
                    assert(up[i] == lines[i]);
                } else if i < b - k {
                    assert(up[i] == lines[i + k]);
                } else if i < b {
                    assert(up[i] == blank_line(w));
                } else {
                    assert(up[i] == lines[i]);
                }
            }
        } else if lines.len() <= top < bottom {
            assert forall|i: int| 0 <= i < up.len() implies #[trigger] up[i].cells.len() == w by {
                if i < lines.len() {
                    assert(up[i] == lines[i]);
                } else {
                    assert(up[i] == blank_line(w));
                }
            }
        }
        if 0 <= top < bottom {
            let k = scroll_amount(count, top, bottom);
            assert forall|i: int| 0 <= i < down.len() implies #[trigger] down[i].cells.len() == w by {
                if bottom <= lines.len() {
                    if i < top {
                        assert(down[i] == lines[i]);
                    } else if i < top + k {
                        assert(down[i] == blank_line(w));
                    } else if i < bottom {
                        assert(down[i] == lines[i - k]);
                    } else {
                        assert(down[i] == lines[i]);
                    }
                } else if top < lines.len() {
                    if i < top {
                        assert(down[i] == lines[i]);
                    } else if i < top + k {
                        assert(down[i] == blank_line(w));
                    } else {
                        assert(down[i] == lines[i - k]);
                    }
                } else {
                    if i < k {
                        assert(down[i] == blank_line(w));
                    } else {
                        assert(down[i] == lines[i - k]);
                    }
                }
            }
        }
    }
}

/// Every buffer operation that a parser step can make keeps the screen in good
/// order; the cases are split by the kind of operation.
proof fn lemma_ops_keep_wf(b: BufferView)
    requires
        screen_wf(b),
    ensures
        forall|x: int, y: int| 0 <= x && 0 <= y ==> #[trigger] screen_wf(b.move_cursor(x, y)),
        forall|y: int, from: int, to: int, c: super::buffer::Cell|
            #[trigger] screen_wf(b.fill(y, from, to, c)),
        forall|x: int, y: int, c: super::buffer::Cell| #[trigger] screen_wf(b.set_cell(x, y, c)),
        forall|y: int| #[trigger] screen_wf(b.clear_line(y)),
        screen_wf(b.clear()),
        screen_wf(b.clear_to_end()),
        screen_wf(b.clear_from_start()),
        forall|t: int, bo: int, n: int|
            0 <= t && 0 <= bo ==> #[trigger] screen_wf(b.scroll_up_region(t, bo, n)),
        forall|t: int, bo: int, n: int|
            0 <= t && 0 <= bo ==> #[trigger] screen_wf(b.scroll_down_region(t, bo, n)),
        forall|at: int, n: int|
            (n == 0 || 0 <= at <= b.lines.len()) ==> #[trigger] screen_wf(b.insert_lines(at, n)),
        forall|at: int, n: int| 0 <= at && 0 <= n ==> #[trigger] screen_wf(b.delete_lines(at, n)),
        forall|x: int, y: int, n: int|
            0 <= x <= b.width && n >= 0 ==> #[trigger] screen_wf(b.delete_chars(x, y, n)),
        forall|x: int, y: int, n: int| #[trigger] screen_wf(b.erase_chars(x, y, n)),
        screen_wf(b.save_cursor()),
        screen_wf(b.restore_cursor()),
{
    assert forall|t: int, bo: int, n: int|
        0 <= t && 0 <= bo implies #[trigger] screen_wf(b.scroll_up_region(t, bo, n)) by {
        lemma_scrolled_fit(b.lines, t, bo, n, b.width as nat);
    }
    assert forall|t: int, bo: int, n: int|
        0 <= t && 0 <= bo implies #[trigger] screen_wf(b.scroll_down_region(t, bo, n)) by {
        lemma_scrolled_fit(b.lines, t, bo, n, b.width as nat);
    }
    assert forall|at: int, n: int|
        (n == 0 || 0 <= at <= b.lines.len()) implies #[trigger] screen_wf(b.insert_lines(at, n)) by {
        let r = b.insert_lines(at, n);
        assert forall|i: int| 0 <= i < r.lines.len() implies #[trigger] r.lines[i].cells.len()
            == b.width by {
            if n > 0 {
                let grown = b.lines.take(at) + Seq::new(
                    n as nat,
                    |j: int| blank_line(b.width as nat),
                ) + b.lines.skip(at);
                assert(grown[i].cells.len() == b.width);
            }
        }
    }
    assert forall|at: int, n: int| 0 <= at && 0 <= n implies #[trigger] screen_wf(
        b.delete_lines(at, n),
    ) by {
        lemma_scrolled_fit(b.lines, at, b.height as int, n, b.width as nat);
    }
    assert forall|x: int, y: int, n: int|
        0 <= x <= b.width && n >= 0 implies #[trigger] screen_wf(b.delete_chars(x, y, n)) by {
        let r = b.delete_chars(x, y, n);
        if 0 <= y < b.lines.len() {
            let l = b.lines[y];
            let d = l.chars_deleted(x, n, b.width as nat);
            assert(d.cells.len() == b.width);
            assert forall|i: int| 0 <= i < r.lines.len() implies #[trigger] r.lines[i].cells.len()
                == b.width by {
                if i != y {
                    assert(r.lines[i] == b.lines[i]);
                }
            }
        }
    }
    assert forall|y: int, from: int, to: int, c: super::buffer::Cell|
        #[trigger] screen_wf(b.fill(y, from, to, c)) by {
        let r = b.fill(y, from, to, c);
        assert forall|i: int| 0 <= i < r.lines.len() implies #[trigger] r.lines[i].cells.len()
            == b.width by {
            if 0 <= y < b.lines.len() && i == y {
            } else {
                assert(r.lines[i] == b.lines[i]);
            }
        }
    }
    assert forall|x: int, y: int, c: super::buffer::Cell|
        #[trigger] screen_wf(b.set_cell(x, y, c)) by {
        assert(screen_wf(b.fill(y, x, x + 1, c)));
    }
    assert forall|x: int, y: int, n: int| #[trigger] screen_wf(b.erase_chars(x, y, n)) by {
        if 0 <= y < b.lines.len() {
            let to = super::buffer::min_int(x + n, b.lines[y].cells.len() as int);
            assert(screen_wf(b.fill(y, x, to, super::buffer::blank_cell())));
        }
    }
    assert forall|y: int| #[trigger] screen_wf(b.clear_line(y)) by {
        let r = b.clear_line(y);
        assert forall|i: int| 0 <= i < r.lines.len() implies #[trigger] r.lines[i].cells.len()
            == b.width by {
            if 0 <= y < b.lines.len() && i == y {
            } else {
                assert(r.lines[i] == b.lines[i]);
            }
        }
    }
    let r = b.clear();
    assert forall|i: int| 0 <= i < r.lines.len() implies #[trigger] r.lines[i].cells.len()
        == b.width by {
        assert(r.lines[i] == b.lines[i].cleared());
    }
    let r = b.clear_to_end();
    assert forall|i: int| 0 <= i < r.lines.len() implies #[trigger] r.lines[i].cells.len()
        == b.width by {
        assert(b.lines[i].cells.len() == b.width);
    }
    let r = b.clear_from_start();
    assert forall|i: int| 0 <= i < r.lines.len() implies #[trigger] r.lines[i].cells.len()
        == b.width by {
        assert(b.lines[i].cells.len() == b.width);
    }
}

/// A defined step keeps the screen in good order.
#[verifier::rlimit(50)]
pub proof fn lemma_step_keeps_wf(p: ParserView, b: BufferView, byte: u8)
    requires
        screen_wf(b),
        step_ok(p, b, byte),
    ensures
        screen_wf(step(p, b, byte).1),
{
    lemma_ops_keep_wf(b);
    match p.state {
        ParserState::Ground => {
            if byte >= 0x20 && !(byte == 0x1b || byte == 13 || byte == 10 || byte == 11
                || byte == 12 || byte == 8 || byte == 9 || byte == 7) {
                let x = b.cursor_x as int;
                let y = b.cursor_y as int;
                let c = super::buffer::Cell { char: byte as char, attributes: p.attrs };
                let b1 = b.set_cell(x, y, c);
                lemma_ops_keep_wf(b1);
            }
        },
        ParserState::Escape => {
            if byte == 69 {
                let b1 = line_feed(p, b);
                lemma_ops_keep_wf(b1);
            }
        },
        ParserState::Csi => {
            if 0x40 <= byte <= 0x7e {
                assert(screen_wf(csi_dispatch(p, b, byte).1));
            }
        },
        _ => {},
    }
}

/// Parsing keeps the screen in good order: where it is defined, a screen whose
/// cursor lies inside the viewport and whose lines are as wide as the viewport
/// stays so.
pub proof fn law_parse_keeps_screen_wf(p: ParserView, b: BufferView, d: Seq<u8>)
    requires
        screen_wf(b),
        parse_ok(p, b, d),
    ensures
        screen_wf(parse_run(p, b, d).1),
{
    lemma_run_keeps_wf(with_region(p, b), b, d);
}

proof fn lemma_run_keeps_wf(p: ParserView, b: BufferView, d: Seq<u8>)
    requires
        screen_wf(b),
        run_ok(p, b, d),
    ensures
        screen_wf(run(p, b, d).1),
    decreases d.len(),
{
    if d.len() > 0 {
        lemma_run_keeps_wf(p, b, d.drop_last());
        let (p1, b1) = run(p, b, d.drop_last());
        lemma_step_keeps_wf(p1, b1, d.last());
    }
}

proof fn lemma_ops_keep_cursor(b: BufferView)
    requires
        cursor_inside(b),
    ensures
        forall|x: int, y: int| 0 <= x && 0 <= y ==> #[trigger] cursor_inside(b.move_cursor(x, y)),
        forall|y: int, from: int, to: int, c: super::buffer::Cell|
            #[trigger] cursor_inside(b.fill(y, from, to, c)),
        forall|x: int, y: int, c: super::buffer::Cell| #[trigger] cursor_inside(b.set_cell(x, y, c)),
        forall|y: int| #[trigger] cursor_inside(b.clear_line(y)),
        cursor_inside(b.clear()),
        cursor_inside(b.clear_to_end()),
        cursor_inside(b.clear_from_start()),
        forall|t: int, bo: int, n: int| #[trigger] cursor_inside(b.scroll_up_region(t, bo, n)),
        forall|t: int, bo: int, n: int| #[trigger] cursor_inside(b.scroll_down_region(t, bo, n)),
        forall|at: int, n: int| #[trigger] cursor_inside(b.insert_lines(at, n)),
        forall|at: int, n: int| #[trigger] cursor_inside(b.delete_lines(at, n)),
        forall|x: int, y: int, n: int| #[trigger] cursor_inside(b.delete_chars(x, y, n)),
        forall|x: int, y: int, n: int| #[trigger] cursor_inside(b.erase_chars(x, y, n)),
        cursor_inside(b.save_cursor()),
        cursor_inside(b.restore_cursor()),
{
}

#[verifier::rlimit(50)]
proof fn lemma_csi_keeps_cursor(p: ParserView, b: BufferView, f: u8)
    requires
        cursor_inside(b),
    ensures
        cursor_inside(csi_dispatch(p, b, f).1),
{
    lemma_ops_keep_cursor(b);
    if f == 114 {
        assert(cursor_inside(set_region(p, b).1));
    } else if f == 74 || f == 75 || f == 109 {
        assert(cursor_inside(csi_dispatch(p, b, f).1));
    } else if f == 76 || f == 77 || f == 80 || f == 83 || f == 84 || f == 88 {
        assert(cursor_inside(csi_dispatch(p, b, f).1));
    } else {
        assert(cursor_inside(csi_dispatch(p, b, f).1));
    }
}

proof fn lemma_ground_keeps_cursor(p: ParserView, b: BufferView, byte: u8)
    requires
        cursor_inside(b),
    ensures
        cursor_inside(ground_step(p, b, byte).1),
{
    lemma_ops_keep_cursor(b);
    let x = b.cursor_x as int;
    let y = b.cursor_y as int;
    let c = super::buffer::Cell { char: byte as char, attributes: p.attrs };
    lemma_ops_keep_cursor(b.set_cell(x, y, c));
    assert(cursor_inside(print_byte(p, b, byte)));
    assert(cursor_inside(line_feed(p, b)));
}

proof fn lemma_escape_keeps_cursor(p: ParserView, b: BufferView, byte: u8)
    requires
        cursor_inside(b),
    ensures
        cursor_inside(escape_step(p, b, byte).1),
{
    lemma_ops_keep_cursor(b);
    assert(cursor_inside(line_feed(p, b)));
    lemma_ops_keep_cursor(line_feed(p, b));
}

/// Any step keeps the cursor and the saved cursor inside the viewport.
proof fn lemma_step_keeps_cursor(p: ParserView, b: BufferView, byte: u8)
    requires
        cursor_inside(b),
    ensures
        cursor_inside(step(p, b, byte).1),
{
    match p.state {
        ParserState::Ground => lemma_ground_keeps_cursor(p, b, byte),
        ParserState::Escape => lemma_escape_keeps_cursor(p, b, byte),
        ParserState::Csi => {
            if 0x40 <= byte <= 0x7e {
                lemma_csi_keeps_cursor(p, b, byte);
            }
        },
        _ => {},
    }
}

proof fn lemma_run_keeps_cursor(p: ParserView, b: BufferView, d: Seq<u8>)
    requires
        cursor_inside(b),
    ensures
        cursor_inside(run(p, b, d).1),
    decreases d.len(),
{
    if d.len() > 0 {
        lemma_run_keeps_cursor(p, b, d.drop_last());
        let (p1, b1) = run(p, b, d.drop_last());
        lemma_step_keeps_cursor(p1, b1, d.last());
    }
}

/// Whatever the input, parsing keeps the viewport's width and height, and a
/// cursor (and saved cursor) inside the viewport stays inside it.
pub proof fn law_parse_keeps_cursor_inside(p: ParserView, b: BufferView, d: Seq<u8>)
    ensures
        parse_run(p, b, d).1.width == b.width,
        parse_run(p, b, d).1.height == b.height,
        cursor_inside(b) ==> cursor_inside(parse_run(p, b, d).1),
{
    lemma_run_keeps_alternate(with_region(p, b), b, d);
    if cursor_inside(b) {
        lemma_run_keeps_cursor(with_region(p, b), b, d);
    }
}

/// `a` and `b` have the same viewport and the same screen put aside.
pub open spec fn same_aside(a: BufferView, b: BufferView) -> bool {
    &&& a.alternate == b.alternate
    &&& a.alternate_cursor == b.alternate_cursor
    &&& a.width == b.width
    &&& a.height == b.height
}

proof fn lemma_ops_keep_aside(b: BufferView)
    ensures
        forall|x: int, y: int| #[trigger] same_aside(b.move_cursor(x, y), b),
        forall|y: int, from: int, to: int, c: super::buffer::Cell|
            #[trigger] same_aside(b.fill(y, from, to, c), b),
        forall|x: int, y: int, c: super::buffer::Cell| #[trigger] same_aside(b.set_cell(x, y, c), b),
        forall|y: int| #[trigger] same_aside(b.clear_line(y), b),
        same_aside(b.clear(), b),
        same_aside(b.clear_to_end(), b),
        same_aside(b.clear_from_start(), b),
        forall|t: int, bo: int, n: int| #[trigger] same_aside(b.scroll_up_region(t, bo, n), b),
        forall|t: int, bo: int, n: int| #[trigger] same_aside(b.scroll_down_region(t, bo, n), b),
        forall|at: int, n: int| #[trigger] same_aside(b.insert_lines(at, n), b),
        forall|at: int, n: int| #[trigger] same_aside(b.delete_lines(at, n), b),
        forall|x: int, y: int, n: int| #[trigger] same_aside(b.delete_chars(x, y, n), b),
        forall|x: int, y: int, n: int| #[trigger] same_aside(b.erase_chars(x, y, n), b),
        same_aside(b.save_cursor(), b),
        same_aside(b.restore_cursor(), b),
{
}

#[verifier::rlimit(50)]
proof fn lemma_csi_keeps_aside(p: ParserView, b: BufferView, f: u8)
    ensures
        same_aside(csi_dispatch(p, b, f).1, b),
{
    lemma_ops_keep_aside(b);
    if f == 114 {
        assert(same_aside(set_region(p, b).1, b));
    }
}

proof fn lemma_ground_keeps_aside(p: ParserView, b: BufferView, byte: u8)
    ensures
        same_aside(ground_step(p, b, byte).1, b),
{
    lemma_ops_keep_aside(b);
    lemma_ops_keep_aside(line_feed(p, b));
    let x = b.cursor_x as int;
    let y = b.cursor_y as int;
    let c = super::buffer::Cell { char: byte as char, attributes: p.attrs };
    lemma_ops_keep_aside(b.set_cell(x, y, c));
    assert(same_aside(print_byte(p, b, byte), b));
}

proof fn lemma_escape_keeps_aside(p: ParserView, b: BufferView, byte: u8)
    ensures
        same_aside(escape_step(p, b, byte).1, b),
{
    lemma_ops_keep_aside(b);
    lemma_ops_keep_aside(line_feed(p, b));
}

/// A step never touches the main screen put aside for the alternate one.
pub proof fn lemma_step_keeps_aside(p: ParserView, b: BufferView, byte: u8)
    ensures
        same_aside(step(p, b, byte).1, b),
{
    match p.state {
        ParserState::Ground => lemma_ground_keeps_aside(p, b, byte),
        ParserState::Escape => lemma_escape_keeps_aside(p, b, byte),
        ParserState::Csi => {
            if 0x40 <= byte <= 0x7e {
                lemma_csi_keeps_aside(p, b, byte);
            }
        },
        _ => {},
    }
}

proof fn lemma_run_keeps_alternate(p: ParserView, b: BufferView, d: Seq<u8>)
    ensures
        run(p, b, d).1.alternate == b.alternate,
        run(p, b, d).1.alternate_cursor == b.alternate_cursor,
        run(p, b, d).1.width == b.width,
        run(p, b, d).1.height == b.height,
    decreases d.len(),
{
    if d.len() > 0 {
        lemma_run_keeps_alternate(p, b, d.drop_last());
        let (p1, b1) = run(p, b, d.drop_last());
        lemma_step_keeps_aside(p1, b1, d.last());
    }
}

/// An operation on a buffer, as a value: every operation but `resize` and
/// `switch_to_main`.
pub enum BufferOp {
    MoveCursor(usize, usize),
    SetCell(usize, usize, Cell),
    ClearLine(usize),
    Clear,
    ClearToEnd,
    ClearFromStart,
    ScrollUp(usize, usize, usize),
    ScrollDown(usize, usize, usize),
    InsertLines(usize, usize),
    DeleteLines(usize, usize),
    DeleteChars(usize, usize, usize),
    EraseChars(usize, usize, usize),
    SaveCursor,
    RestoreCursor,
    SwitchToAlternate,
}

/// What an operation does to a buffer.
pub open spec fn apply_op(b: BufferView, op: BufferOp) -> BufferView {
    match op {
        BufferOp::MoveCursor(x, y) => b.move_cursor(x as int, y as int),
        BufferOp::SetCell(x, y, c) => b.set_cell(x as int, y as int, c),
        BufferOp::ClearLine(y) => b.clear_line(y as int),
        BufferOp::Clear => b.clear(),
        BufferOp::ClearToEnd => b.clear_to_end(),
        BufferOp::ClearFromStart => b.clear_from_start(),
        BufferOp::ScrollUp(t, bo, n) => b.scroll_up_region(t as int, bo as int, n as int),
        BufferOp::ScrollDown(t, bo, n) => b.scroll_down_region(t as int, bo as int, n as int),
        BufferOp::InsertLines(at, n) => b.insert_lines(at as int, n as int),
        BufferOp::DeleteLines(at, n) => b.delete_lines(at as int, n as int),
        BufferOp::DeleteChars(x, y, n) => b.delete_chars(x as int, y as int, n as int),
        BufferOp::EraseChars(x, y, n) => b.erase_chars(x as int, y as int, n as int),
        BufferOp::SaveCursor => b.save_cursor(),
        BufferOp::RestoreCursor => b.restore_cursor(),
        BufferOp::SwitchToAlternate => b.switch_to_alternate(),
    }
}

/// The operations `ops` applied in order.
pub open spec fn apply_ops(b: BufferView, ops: Seq<BufferOp>) -> BufferView
    decreases ops.len(),
{
    if ops.len() == 0 {
        b
    } else {
        apply_op(apply_ops(b, ops.drop_last()), ops.last())
    }
}

proof fn lemma_ops_keep_alternate(b: BufferView, ops: Seq<BufferOp>)
    requires
        b.alternate is Some,
    ensures
        apply_ops(b, ops).alternate == b.alternate,
        apply_ops(b, ops).alternate_cursor == b.alternate_cursor,
    decreases ops.len(),
{
    if ops.len() > 0 {
        lemma_ops_keep_alternate(b, ops.drop_last());
        let b1 = apply_ops(b, ops.drop_last());
        lemma_ops_keep_aside(b1);
    }
}

/// The alternate screen leaves the main one alone: switching to it, making any
/// buffer calls but `resize` and `switch_to_main` there, and switching back gives
/// back the main lines and cursor; switching to the main screen while on it
/// changes nothing.
pub proof fn law_alternate_screen_round_trip(b: BufferView, ops: Seq<BufferOp>)
    ensures
        b.alternate is None ==> ({
            let back = apply_ops(b.switch_to_alternate(), ops).switch_to_main();
            &&& back.lines == b.lines
            &&& back.cursor_x == b.cursor_x
            &&& back.cursor_y == b.cursor_y
            &&& back.alternate is None
            &&& back.alternate_cursor is None
        }),
        b.alternate is None ==> b.switch_to_main() == b,
{
    if b.alternate is None {
        lemma_ops_keep_alternate(b.switch_to_alternate(), ops);
    }
}

/// The alternate screen leaves the main one alone: switching to it, parsing any
/// input there, and switching back gives back the main lines and cursor.
pub proof fn law_alternate_screen_keeps_main(p: ParserView, b: BufferView, d: Seq<u8>)
    requires
        b.alternate is None,
        b.alternate_cursor is None,
    ensures
        ({
            let shown = parse_run(p, b.switch_to_alternate(), d).1;
            let back = shown.switch_to_main();
            &&& back.lines == b.lines
            &&& back.cursor_x == b.cursor_x
            &&& back.cursor_y == b.cursor_y
            &&& back.alternate is None
            &&& back.alternate_cursor is None
        }),
{
    let a = b.switch_to_alternate();
    lemma_run_keeps_alternate(with_region(p, a), a, d);
}

/// Restoring the cursor after saving it brings it back, wherever it went in between.
pub proof fn law_save_then_restore(b: BufferView, x: int, y: int)
    ensures
        ({
            let r = b.save_cursor().move_cursor(x, y).restore_cursor();
            r.cursor_x == b.cursor_x && r.cursor_y == b.cursor_y && r.saved_cursor is None
        }),
{
}

/// The cursor moved to each position of `moves` in turn.
pub open spec fn apply_moves(b: BufferView, moves: Seq<(usize, usize)>) -> BufferView
    decreases moves.len(),
{
    if moves.len() == 0 {
        b
    } else {
        apply_moves(b, moves.drop_last()).move_cursor(
            moves.last().0 as int,
            moves.last().1 as int,
        )
    }
}

proof fn lemma_moves_keep(b: BufferView, moves: Seq<(usize, usize)>)
    ensures
        apply_moves(b, moves).lines == b.lines,
        apply_moves(b, moves).saved_cursor == b.saved_cursor,
    decreases moves.len(),
{
    if moves.len() > 0 {
        lemma_moves_keep(b, moves.drop_last());
    }
}

/// Saving the cursor, moving it any number of times and restoring it brings it
/// back and forgets the saved position; restoring again, or restoring with
/// nothing saved, changes nothing; and the lines are never touched.
pub proof fn law_save_moves_restore(b: BufferView, moves: Seq<(usize, usize)>)
    ensures
        ({
            let r = apply_moves(b.save_cursor(), moves).restore_cursor();
            &&& r.cursor_x == b.cursor_x
            &&& r.cursor_y == b.cursor_y
            &&& r.saved_cursor is None
            &&& r.lines == b.lines
            &&& r.restore_cursor() == r
        }),
        b.saved_cursor is None ==> b.restore_cursor() == b,
{
    lemma_moves_keep(b.save_cursor(), moves);
}

/// Scrolling a region that ends within the lines, and deleting lines, keep the
/// number of lines: each line that leaves is replaced by a blank one.
pub proof fn law_scroll_keeps_line_count(b: BufferView, top: int, bottom: int, count: int)
    ensures
        bottom <= b.lines.len() ==> b.scroll_up_region(top, bottom, count).lines.len()
            == b.lines.len(),
        bottom <= b.lines.len() ==> b.scroll_down_region(top, bottom, count).lines.len()
            == b.lines.len(),
        b.delete_lines(top, count).lines.len() == b.lines.len(),
{
    lemma_scrolled_fit(b.lines, top, bottom, count, b.width as nat);
    lemma_scrolled_fit(b.lines, top, b.height as int, count, b.width as nat);
}

/// Scrolling the region `top..bottom` up by `count` moves only the region's lines:
/// those above and below it stay, the region's lines move up by `m` (`count` held
/// to the region's height), `m` blank lines as wide as the viewport fill its
/// bottom, and nothing but the lines changes.
pub proof fn law_scroll_up_region(b: BufferView, top: int, bottom: int, count: int)
    requires
        0 <= top < bottom <= b.lines.len(),
        count >= 0,
    ensures
        ({
            let r = b.scroll_up_region(top, bottom, count);
            let m = min_int(count, bottom - top);
            &&& r.lines.len() == b.lines.len()
            &&& forall|i: int|
                0 <= i < b.lines.len() && (i < top || i >= bottom) ==> #[trigger] r.lines[i]
                    == b.lines[i]
            &&& forall|i: int| top <= i < bottom - m ==> #[trigger] r.lines[i] == b.lines[i + m]
            &&& forall|i: int|
                bottom - m <= i < bottom ==> #[trigger] r.lines[i] == blank_line(b.width as nat)
            &&& r.same_but_lines(b)
        }),
{
    let r = b.scroll_up_region(top, bottom, count);
    let m = min_int(count, bottom - top);
    assert(scroll_amount(count, top, bottom) == m);
    assert forall|i: int|
        0 <= i < b.lines.len() && (i < top || i >= bottom) implies #[trigger] r.lines[i]
        == b.lines[i] by {}
    assert forall|i: int| top <= i < bottom - m implies #[trigger] r.lines[i] == b.lines[i + m] by {}
    assert forall|i: int| bottom - m <= i < bottom implies #[trigger] r.lines[i] == blank_line(
        b.width as nat,
    ) by {}
}

/// Scrolling the region `top..bottom` down by `count` moves only the region's
/// lines: those above and below it stay, `m` blank lines as wide as the viewport
/// fill its top (`count` held to the region's height), the region's other lines
/// move down by `m`, and nothing but the lines changes.
pub proof fn law_scroll_down_region(b: BufferView, top: int, bottom: int, count: int)
    requires
        0 <= top < bottom <= b.lines.len(),
        count >= 0,
    ensures
        ({
            let r = b.scroll_down_region(top, bottom, count);
            let m = min_int(count, bottom - top);
            &&& r.lines.len() == b.lines.len()
            &&& forall|i: int|
                0 <= i < b.lines.len() && (i < top || i >= bottom) ==> #[trigger] r.lines[i]
                    == b.lines[i]
            &&& forall|i: int|
                top <= i < top + m ==> #[trigger] r.lines[i] == blank_line(b.width as nat)
            &&& forall|i: int| top + m <= i < bottom ==> #[trigger] r.lines[i] == b.lines[i - m]
            &&& r.same_but_lines(b)
        }),
{
    let r = b.scroll_down_region(top, bottom, count);
    let m = min_int(count, bottom - top);
    assert(scroll_amount(count, top, bottom) == m);
    assert forall|i: int|
        0 <= i < b.lines.len() && (i < top || i >= bottom) implies #[trigger] r.lines[i]
        == b.lines[i] by {}
    assert forall|i: int| top <= i < top + m implies #[trigger] r.lines[i] == blank_line(
        b.width as nat,
    ) by {}
    assert forall|i: int| top + m <= i < bottom implies #[trigger] r.lines[i] == b.lines[i - m] by {}
}

/// Deleting lines keeps the screen's height: on a screen of `height` lines, the
/// `m` lines from `at` (`count` held to the rows left) leave, the lines below move
/// up, and `m` blank lines fill the bottom; the lines above `at` stay.
pub proof fn law_delete_lines_keeps_height(b: BufferView, at: int, count: int)
    requires
        b.lines.len() == b.height,
        0 <= at < b.height,
        count >= 0,
    ensures
        ({
            let r = b.delete_lines(at, count);
            let m = min_int(count, b.height - at);
            &&& r.lines.len() == b.height
            &&& forall|i: int| 0 <= i < at ==> #[trigger] r.lines[i] == b.lines[i]
            &&& forall|i: int| at <= i < b.height - m ==> #[trigger] r.lines[i] == b.lines[i + m]
            &&& forall|i: int|
                b.height - m <= i < b.height ==> #[trigger] r.lines[i] == blank_line(
                    b.width as nat,
                )
            &&& r.same_but_lines(b)
        }),
{
    law_scroll_up_region(b, at, b.height as int, count);
}

/// After a resize every line is as wide as the viewport, and there are at least as
/// many lines as rows.
pub proof fn law_resize_fits(b: BufferView, width: usize, height: usize)
    ensures
        lines_fit(b.resize(width as int, height as int)),
        b.resize(width as int, height as int).lines.len() >= height,
{
    let r = b.resize(width as int, height as int);
    assert forall|i: int| 0 <= i < r.lines.len() implies #[trigger] r.lines[i].cells.len()
        == r.width by {
    }
}

/// A cell written inside the screen reads back as written, every other cell
/// keeps what it held, and the cursor and the rest of the screen are untouched;
/// a write outside the screen changes nothing.
pub proof fn law_set_cell_then_get(b: BufferView, x: int, y: int, c: Cell, x2: int, y2: int)
    ensures
        ({
            let r = b.set_cell(x, y, c);
            let inside = 0 <= y < b.lines.len() && 0 <= x < b.lines[y].cells.len();
            &&& inside ==> r.lines[y].cells[x] == c
            &&& (0 <= y2 < b.lines.len() && 0 <= x2 < b.lines[y2].cells.len() && (x2 != x || y2
                != y)) ==> r.lines[y2].cells[x2] == b.lines[y2].cells[x2]
            &&& r.lines.len() == b.lines.len()
            &&& forall|k: int| 0 <= k < b.lines.len() ==> #[trigger] r.lines[k].cells.len()
                == b.lines[k].cells.len()
            &&& r.same_but_lines(b)
            &&& !inside ==> r == b
        }),
{
    let r = b.set_cell(x, y, c);
    if 0 <= y < b.lines.len() && !(0 <= x < b.lines[y].cells.len()) {
        assert(b.lines[y].filled(x, x + 1, c).cells =~= b.lines[y].cells);
        assert(r.lines =~= b.lines);
    }
}

/// The final bytes of the sequences that take a count.
pub open spec fn takes_count(f: u8) -> bool {
    f == 65 || f == 66 || f == 67 || f == 68 || f == 69 || f == 70 || f == 71 || f == 76 || f
        == 77 || f == 80 || f == 83 || f == 84 || f == 88
}

/// A count that is left out, 0 or 1 means one: for every sequence that takes a
/// count (cursor moves, line and character inserts and deletes, scrolls), the
/// three give the same screen, the same parser, and are defined alike.
pub proof fn law_count_defaults_to_one(p: ParserView, b: BufferView, f: u8)
    requires
        takes_count(f),
    ensures
        ({
            let p0 = ParserView { params: Seq::empty(), ..p };
            let p1 = ParserView { params: seq![0u32], ..p };
            let p2 = ParserView { params: seq![1u32], ..p };
            &&& csi_dispatch(p0, b, f).1 == csi_dispatch(p1, b, f).1
            &&& csi_dispatch(p1, b, f).1 == csi_dispatch(p2, b, f).1
            &&& csi_ok(p0, b, f) == csi_ok(p1, b, f)
            &&& csi_ok(p1, b, f) == csi_ok(p2, b, f)
        }),
{
    let p0 = ParserView { params: Seq::empty(), ..p };
    let p1 = ParserView { params: seq![0u32], ..p };
    let p2 = ParserView { params: seq![1u32], ..p };
    assert(count_param(p0.params) == 1 && count_param(p1.params) == 1 && count_param(p2.params)
        == 1);
}

/// What SGR codes do to each attribute: `Some` of the value where they set it.
pub struct AttrUpdate {
    pub bold: Option<bool>,
    pub italic: Option<bool>,
    pub underline: Option<bool>,
    pub strikethrough: Option<bool>,
    pub reverse: Option<bool>,
    pub dim: Option<bool>,
    pub foreground: Option<Option<Color>>,
    pub background: Option<Option<Color>>,
}

/// The value that `o` sets, or `d` where it sets none.
pub open spec fn pick<T>(o: Option<T>, d: T) -> T {
    match o {
        Some(v) => v,
        None => d,
    }
}

/// The attributes `a` with the values that `u` sets.
pub open spec fn apply_update(u: AttrUpdate, a: CellAttributes) -> CellAttributes {
    CellAttributes {
        bold: pick(u.bold, a.bold),
        italic: pick(u.italic, a.italic),
        underline: pick(u.underline, a.underline),
        strikethrough: pick(u.strikethrough, a.strikethrough),
        reverse: pick(u.reverse, a.reverse),
        dim: pick(u.dim, a.dim),
        foreground: pick(u.foreground, a.foreground),
        background: pick(u.background, a.background),
    }
}

/// `u1` and then `u2`: what `u2` sets wins.
pub open spec fn then_update(u1: AttrUpdate, u2: AttrUpdate) -> AttrUpdate {
    AttrUpdate {
        bold: if u2.bold is Some { u2.bold } else { u1.bold },
        italic: if u2.italic is Some { u2.italic } else { u1.italic },
        underline: if u2.underline is Some { u2.underline } else { u1.underline },
        strikethrough: if u2.strikethrough is Some { u2.strikethrough } else { u1.strikethrough },
        reverse: if u2.reverse is Some { u2.reverse } else { u1.reverse },
        dim: if u2.dim is Some { u2.dim } else { u1.dim },
        foreground: if u2.foreground is Some { u2.foreground } else { u1.foreground },
        background: if u2.background is Some { u2.background } else { u1.background },
    }
}

/// Sets nothing.
pub open spec fn no_update() -> AttrUpdate {
    AttrUpdate {
        bold: None,
        italic: None,
        underline: None,
        strikethrough: None,
        reverse: None,
        dim: None,
        foreground: None,
        background: None,
    }
}

/// Sets every attribute to that of `a`.
pub open spec fn set_all(a: CellAttributes) -> AttrUpdate {
    AttrUpdate {
        bold: Some(a.bold),
        italic: Some(a.italic),
        underline: Some(a.underline),
        strikethrough: Some(a.strikethrough),
        reverse: Some(a.reverse),
        dim: Some(a.dim),
        foreground: Some(a.foreground),
        background: Some(a.background),
    }
}

/// What the SGR code `ps[i]` sets.
pub open spec fn code_update(ps: Seq<u32>, i: int) -> AttrUpdate {
    let code = ps[i] as int;
    if code == 0 {
        set_all(plain_attrs())
    } else if code == 1 {
        AttrUpdate { bold: Some(true), ..no_update() }
    } else if code == 2 {
        AttrUpdate { dim: Some(true), ..no_update() }
    } else if code == 3 {
        AttrUpdate { italic: Some(true), ..no_update() }
    } else if code == 4 {
        AttrUpdate { underline: Some(true), ..no_update() }
    } else if code == 7 {
        AttrUpdate { reverse: Some(true), ..no_update() }
    } else if code == 9 {
        AttrUpdate { strikethrough: Some(true), ..no_update() }
    } else if code == 22 {
        AttrUpdate { bold: Some(false), dim: Some(false), ..no_update() }
    } else if code == 23 {
        AttrUpdate { italic: Some(false), ..no_update() }
    } else if code == 24 {
        AttrUpdate { underline: Some(false), ..no_update() }
    } else if code == 27 {
        AttrUpdate { reverse: Some(false), ..no_update() }
    } else if code == 29 {
        AttrUpdate { strikethrough: Some(false), ..no_update() }
    } else if 30 <= code <= 37 {
        AttrUpdate { foreground: Some(Some(named_color(code - 30))), ..no_update() }
    } else if code == 38 {
        match extended_color(ps, i) {
            Some((c, k)) => AttrUpdate { foreground: Some(Some(c)), ..no_update() },
            None => no_update(),
        }
    } else if code == 39 {
        AttrUpdate { foreground: Some(None), ..no_update() }
    } else if 40 <= code <= 47 {
        AttrUpdate { background: Some(Some(named_color(code - 40))), ..no_update() }
    } else if code == 48 {
        match extended_color(ps, i) {
            Some((c, k)) => AttrUpdate { background: Some(Some(c)), ..no_update() },
            None => no_update(),
        }
    } else if code == 49 {
        AttrUpdate { background: Some(None), ..no_update() }
    } else if 90 <= code <= 97 {
        AttrUpdate { foreground: Some(Some(bright_color(code - 90))), ..no_update() }
    } else if 100 <= code <= 107 {
        AttrUpdate { background: Some(Some(bright_color(code - 100))), ..no_update() }
    } else {
        no_update()
    }
}

/// What the SGR codes from `ps[i]` on set, taken in order.
pub open spec fn sgr_update(ps: Seq<u32>, i: int) -> AttrUpdate
    decreases ps.len() - i,
{
    if i < 0 || i >= ps.len() {
        no_update()
    } else {
        let k = sgr_code(plain_attrs(), ps, i).1;
        if k >= 0 {
            then_update(code_update(ps, i), sgr_update(ps, i + k + 1))
        } else {
            code_update(ps, i)
        }
    }
}

proof fn lemma_code_update(a: CellAttributes, ps: Seq<u32>, i: int)
    requires
        0 <= i < ps.len(),
    ensures
        sgr_code(a, ps, i).0 == apply_update(code_update(ps, i), a),
        sgr_code(a, ps, i).1 == sgr_code(plain_attrs(), ps, i).1,
{
}

proof fn lemma_sgr_from_update(a: CellAttributes, ps: Seq<u32>, i: int)
    ensures
        sgr_from(a, ps, i) == apply_update(sgr_update(ps, i), a),
    decreases ps.len() - i,
{
    if 0 <= i < ps.len() {
        lemma_code_update(a, ps, i);
        let (a1, k) = sgr_code(a, ps, i);
        if k >= 0 {
            lemma_sgr_from_update(a1, ps, i + k + 1);
        }
    }
}

/// Applying a list of SGR codes twice gives what applying it once gives: every
/// code sets attributes to values that do not depend on the current ones.
pub proof fn law_sgr_idempotent(a: CellAttributes, ps: Seq<u32>)
    ensures
        sgr(sgr(a, ps), ps) == sgr(a, ps),
{
    if ps.len() > 0 {
        lemma_sgr_from_update(a, ps, 0);
        lemma_sgr_from_update(sgr(a, ps), ps, 0);
    }
}


/// SGR `30 + k` sets the foreground and `40 + k` the background to the k-th of
/// black, red, green, yellow, blue, magenta, cyan and white; `90 + k` and `100 + k`
/// do so with the bright versions. Each leaves every other attribute as it was,
/// whatever the attributes were before.
pub proof fn law_sgr_colour_codes(a: CellAttributes, k: int)
    requires
        0 <= k < 8,
    ensures
        sgr(a, seq![(30 + k) as u32]) == (CellAttributes {
            foreground: Some(standard_colours()[k]),
            ..a
        }),
        sgr(a, seq![(40 + k) as u32]) == (CellAttributes {
            background: Some(standard_colours()[k]),
            ..a
        }),
        sgr(a, seq![(90 + k) as u32]) == (CellAttributes {
            foreground: Some(bright_colours()[k]),
            ..a
        }),
        sgr(a, seq![(100 + k) as u32]) == (CellAttributes {
            background: Some(bright_colours()[k]),
            ..a
        }),
{
    let codes = seq![(30 + k) as u32, (40 + k) as u32, (90 + k) as u32, (100 + k) as u32];
    assert forall|j: int| 0 <= j < 4 implies {
        let ps = seq![#[trigger] codes[j]];
        sgr(a, ps) == sgr_code(a, ps, 0).0
    } by {
        let ps = seq![codes[j]];
        assert(sgr_from(sgr_code(a, ps, 0).0, ps, 1) == sgr_code(a, ps, 0).0);
    }
    assert(codes[0] == (30 + k) as u32);
    assert(codes[1] == (40 + k) as u32);
    assert(codes[2] == (90 + k) as u32);
    assert(codes[3] == (100 + k) as u32);
}


/// `ESC [ n L` puts `n` blank lines in at the cursor's row (one when `n` is missing
/// or 0): the rows above the cursor stay, the `n` rows from the cursor's are blank,
/// and the rows that were at the cursor's row and below move `n` rows down; lines
/// beyond what the buffer keeps are dropped from the end. The parser, the cursor and
/// everything else about the buffer stay as they were.
pub proof fn law_insert_lines_at_cursor(p: ParserView, b: BufferView)
    requires
        b.cursor_y <= b.lines.len(),
    ensures
        ({
            let (p2, b2) = csi_dispatch(p, b, 76u8);
            let n: int = if p.params.len() > 0 && p.params[0] >= 1 {
                p.params[0] as int
            } else {
                1
            };
            let y = b.cursor_y as int;
            let len = b.lines.len() + n;
            let kept = if len <= b.height + b.scrollback {
                len
            } else {
                b.height + b.scrollback
            };
            &&& p2 == p
            &&& b2.lines.len() == kept
            &&& forall|j: int| 0 <= j < y && j < kept ==> #[trigger] b2.lines[j] == b.lines[j]
            &&& forall|j: int| y <= j < y + n && j < kept ==> #[trigger] b2.lines[j] == blank_line(
                b.width as nat,
            )
            &&& forall|j: int| y + n <= j < kept ==> #[trigger] b2.lines[j] == b.lines[j - n]
            &&& b2 == BufferView { lines: b2.lines, ..b }
        }),
{
    let n = count_param(p.params);
    let y = b.cursor_y as int;
    let grown = b.lines.take(y) + Seq::new(n as nat, |i: int| blank_line(b.width as nat))
        + b.lines.skip(y);
    assert(grown.len() == b.lines.len() + n);
    assert forall|j: int| y + n <= j < grown.len() implies grown[j] == b.lines[j - n] by {
        assert(b.lines.skip(y)[j - n - y] == b.lines[j - n]);
    }
}

} // verus!
