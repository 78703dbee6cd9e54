//! The screen buffer: a deque of lines of cells, a cursor, a saved cursor and
//! an alternate screen.
use std::collections::VecDeque;

use vstd::prelude::*;

pub use super::color::{checked_parse_color, parse_color, parse_lowercase_color, Color};

verus! {

/// How a cell is drawn.
#[derive(Debug, Clone, Copy, PartialEq, Eq, Structural)]
pub struct CellAttributes {
    pub bold: bool,
    pub italic: bool,
    pub underline: bool,
    pub strikethrough: bool,
    pub reverse: bool,
    pub dim: bool,
    pub foreground: Option<Color>,
    pub background: Option<Color>,
}

/// The attributes of a cell that nothing has styled: no flag set, default colours.
pub open spec fn plain_attrs() -> CellAttributes {
    CellAttributes {
        bold: false,
        italic: false,
        underline: false,
        strikethrough: false,
        reverse: false,
        dim: false,
        foreground: None,
        background: None,
    }
}

impl Default for CellAttributes {
    fn default() -> (r: Self)
        ensures
            r == plain_attrs(),
    {
        CellAttributes {
            bold: false,
            italic: false,
            underline: false,
            strikethrough: false,
            reverse: false,
            dim: false,
            foreground: None,
            background: None,
        }
    }
}

/// One character position of the screen.
#[derive(Debug, Clone, Copy, PartialEq, Eq, Structural)]
pub struct Cell {
    pub char: char,
    pub attributes: CellAttributes,
}

/// A space with plain attributes.
pub open spec fn blank_cell() -> Cell {
    Cell { char: ' ', attributes: plain_attrs() }
}

pub(crate) fn new_blank_cell() -> (c: Cell)
    ensures
        c == blank_cell(),
{
    Cell { char: ' ', attributes: CellAttributes::default() }
}

/// A row of cells.
#[derive(Debug, Clone)]
pub struct Line {
    pub cells: Vec<Cell>,
    pub wrapped: bool,
}

/// The contents of a line.
#[verifier::ext_equal]
pub struct LineView {
    pub cells: Seq<Cell>,
    pub wrapped: bool,
}

impl View for Line {
    type V = LineView;

    open spec fn view(&self) -> LineView {
        LineView { cells: self.cells@, wrapped: self.wrapped }
    }
}

/// `n` blank cells.
pub open spec fn blanks(n: nat) -> Seq<Cell> {
    Seq::new(n, |i: int| blank_cell())
}

/// A line of `width` blank cells, not wrapped.
pub open spec fn blank_line(width: nat) -> LineView {
    LineView { cells: blanks(width), wrapped: false }
}

impl LineView {
    /// The line cut or padded with blank cells to `width` cells.
    pub open spec fn resized(self, width: nat) -> LineView {
        LineView {
            cells: if width <= self.cells.len() {
                self.cells.take(width as int)
            } else {
                self.cells + blanks((width - self.cells.len()) as nat)
            },
            wrapped: self.wrapped,
        }
    }

    /// Every cell blank, and the line no longer wrapped.
    pub open spec fn cleared(self) -> LineView {
        LineView { cells: blanks(self.cells.len()), wrapped: false }
    }

    /// The cells at positions `from <= i < to` replaced by `c`; positions outside
    /// the line are ignored.
    pub open spec fn filled(self, from: int, to: int, c: Cell) -> LineView {
        LineView {
            cells: Seq::new(
                self.cells.len(),
                |i: int|
                    if from <= i && i < to {
                        c
                    } else {
                        self.cells[i]
                    },
            ),
            wrapped: self.wrapped,
        }
    }

    /// The cells from `x` to `x + count` taken out, the rest moved left, and blank
    /// cells added at the end while the line is narrower than `width`.
    pub open spec fn chars_deleted(self, x: int, count: int, width: nat) -> LineView {
        let n = self.cells.len() as int;
        let end = if x + count < n {
            x + count
        } else {
            n
        };
        let kept = self.cells.take(x) + self.cells.skip(end);
        LineView {
            cells: if kept.len() < width {
                kept + blanks((width - kept.len()) as nat)
            } else {
                kept
            },
            wrapped: self.wrapped,
        }
    }
}

/// `a` lowered to `b` when it is larger.
pub open spec fn min_int(a: int, b: int) -> int {
    if a <= b {
        a
    } else {
        b
    }
}

/// `a - b`, or 0 where that would be negative.
pub open spec fn sat_sub(a: int, b: int) -> int {
    if a >= b {
        a - b
    } else {
        0
    }
}

/// `m` blank lines of `width` cells.
pub open spec fn blank_lines(m: nat, width: nat) -> Seq<LineView> {
    Seq::new(m, |i: int| blank_line(width))
}

/// How many lines a scroll by `count` moves the region `top..b`: `count`, held to
/// `0..=b - top`.
pub open spec fn scroll_amount(count: int, top: int, b: int) -> int {
    if count <= 0 {
        0
    } else if count < b - top {
        count
    } else {
        b - top
    }
}

/// The lines `top..bottom` scrolled up by `count`. Where the region starts within
/// the lines (it is then cut to them): the first `k` lines of the region leave,
/// the rest move up by `k`, `k` blank lines fill the bottom of the region, and
/// every line outside it stays. Where it starts past the last line: `k` blank
/// lines are added at the end. `k` is `count` held to the region's height.
pub open spec fn scrolled_up(lines: Seq<LineView>, top: int, bottom: int, count: int, width: nat) -> Seq<
    LineView,
> {
    let b = min_int(bottom, lines.len() as int);
    if 0 <= top < b {
        let k = scroll_amount(count, top, b);
        lines.take(top) + lines.subrange(top + k, b) + blank_lines(k as nat, width) + lines.skip(b)
    } else if lines.len() <= top < bottom {
        lines + blank_lines(scroll_amount(count, top, bottom) as nat, width)
    } else {
        lines
    }
}

/// The lines `top..bottom` scrolled down by `count`. Where the region lies within
/// the lines: the last `k` lines of the region leave, the rest move down by `k`,
/// `k` blank lines fill the top of the region, and every line outside it stays.
/// Where it reaches past the last line: `k` blank lines are put in at `top`
/// (at the front where `top` is past the last line too) and none leaves. `k` is
/// `count` held to the region's height.
pub open spec fn scrolled_down(lines: Seq<LineView>, top: int, bottom: int, count: int, width: nat) -> Seq<
    LineView,
> {
    if 0 <= top < bottom {
        let k = scroll_amount(count, top, bottom);
        if bottom <= lines.len() {
            lines.take(top) + blank_lines(k as nat, width) + lines.subrange(top, bottom - k)
                + lines.skip(bottom)
        } else if top < lines.len() {
            lines.take(top) + blank_lines(k as nat, width) + lines.skip(top)
        } else {
            blank_lines(k as nat, width) + lines
        }
    } else {
        lines
    }
}

/// The state of a buffer.
#[verifier::ext_equal]
pub struct BufferView {
    pub lines: Seq<LineView>,
    pub alternate: Option<Seq<LineView>>,
    pub alternate_cursor: Option<(usize, usize)>,
    pub height: usize,
    pub width: usize,
    pub scrollback: usize,
    pub cursor_x: usize,
    pub cursor_y: usize,
    pub saved_cursor: Option<(usize, usize)>,
}

impl BufferView {
    /// Line `y` replaced by `l`, where there is such a line.
    pub open spec fn with_line(self, y: int, l: LineView) -> BufferView {
        if 0 <= y < self.lines.len() {
            BufferView { lines: self.lines.update(y, l), ..self }
        } else {
            self
        }
    }

    /// Cells `from <= x < to` of line `y` replaced by `c`.
    pub open spec fn fill(self, y: int, from: int, to: int, c: Cell) -> BufferView {
        if 0 <= y < self.lines.len() {
            self.with_line(y, self.lines[y].filled(from, to, c))
        } else {
            self
        }
    }

    /// Cell `(x, y)` replaced by `c`, where there is such a cell.
    pub open spec fn set_cell(self, x: int, y: int, c: Cell) -> BufferView {
        self.fill(y, x, x + 1, c)
    }

    /// Line `y` cleared.
    pub open spec fn clear_line(self, y: int) -> BufferView {
        if 0 <= y < self.lines.len() {
            self.with_line(y, self.lines[y].cleared())
        } else {
            self
        }
    }

    /// Every line cleared and the cursor at the origin.
    pub open spec fn clear(self) -> BufferView {
        BufferView {
            lines: self.lines.map_values(|l: LineView| l.cleared()),
            cursor_x: 0,
            cursor_y: 0,
            ..self
        }
    }

    /// Blank from the cursor to the end of its line, and every line below it that
    /// lies in the viewport cleared.
    pub open spec fn clear_to_end(self) -> BufferView {
        let x = self.cursor_x as int;
        let y = self.cursor_y as int;
        BufferView {
            lines: Seq::new(
                self.lines.len(),
                |i: int|
                    if i == y {
                        self.lines[i].filled(x, self.lines[i].cells.len() as int, blank_cell())
                    } else if y < i && i < self.height {
                        self.lines[i].cleared()
                    } else {
                        self.lines[i]
                    },
            ),
            ..self
        }
    }

    /// Every line above the cursor cleared, and its own line blank up to and with
    /// the cursor's cell.
    pub open spec fn clear_from_start(self) -> BufferView {
        let x = self.cursor_x as int;
        let y = self.cursor_y as int;
        BufferView {
            lines: Seq::new(
                self.lines.len(),
                |i: int|
                    if i < y {
                        self.lines[i].cleared()
                    } else if i == y {
                        self.lines[i].filled(
                            0,
                            min_int(x + 1, self.lines[i].cells.len() as int),
                            blank_cell(),
                        )
                    } else {
                        self.lines[i]
                    },
            ),
            ..self
        }
    }

    /// The region `top..bottom` scrolled up by `count` lines (at most its height);
    /// the new lines are as wide as the viewport.
    pub open spec fn scroll_up_region(self, top: int, bottom: int, count: int) -> BufferView {
        BufferView { lines: scrolled_up(self.lines, top, bottom, count, self.width as nat), ..self }
    }

    /// The region `top..bottom` scrolled down by `count` lines (at most its height);
    /// the new lines are as wide as the viewport.
    pub open spec fn scroll_down_region(self, top: int, bottom: int, count: int) -> BufferView {
        BufferView { lines: scrolled_down(self.lines, top, bottom, count, self.width as nat), ..self }
    }

    /// The most lines a buffer keeps: the viewport and its scrollback.
    pub open spec fn capacity(self) -> int {
        self.height + self.scrollback
    }

    /// `count` blank lines put in at `at`, and lines beyond the capacity dropped
    /// from the end.
    pub open spec fn insert_lines(self, at: int, count: int) -> BufferView {
        let grown = if count > 0 {
            self.lines.take(at) + Seq::new(count as nat, |i: int| blank_line(self.width as nat))
                + self.lines.skip(at)
        } else {
            self.lines
        };
        BufferView { lines: grown.take(min_int(grown.len() as int, self.capacity())), ..self }
    }

    /// Up to `count` lines from `at` taken out of the screen, the lines below them
    /// up to the last row moved up, and blank lines added above the last row, so
    /// that the screen keeps its height: the rows `at..height` scrolled up. Where
    /// there is no line `at`, nothing changes.
    pub open spec fn delete_lines(self, at: int, count: int) -> BufferView {
        if 0 <= at < self.lines.len() {
            self.scroll_up_region(at, self.height as int, count)
        } else {
            self
        }
    }

    /// Up to `count` cells from `(x, y)` taken out of line `y`, the rest moved left,
    /// and the line padded to the viewport width.
    pub open spec fn delete_chars(self, x: int, y: int, count: int) -> BufferView {
        if 0 <= y < self.lines.len() {
            self.with_line(y, self.lines[y].chars_deleted(x, count, self.width as nat))
        } else {
            self
        }
    }

    /// `count` cells from `(x, y)` made blank.
    pub open spec fn erase_chars(self, x: int, y: int, count: int) -> BufferView {
        if 0 <= y < self.lines.len() {
            self.fill(
                y,
                x,
                min_int(x + count, self.lines[y].cells.len() as int),
                blank_cell(),
            )
        } else {
            self
        }
    }

    /// The cursor at `(x, y)`, each held inside the viewport.
    pub open spec fn move_cursor(self, x: int, y: int) -> BufferView {
        BufferView {
            cursor_x: min_int(x, sat_sub(self.width as int, 1)) as usize,
            cursor_y: min_int(y, sat_sub(self.height as int, 1)) as usize,
            ..self
        }
    }

    /// The cursor remembered.
    pub open spec fn save_cursor(self) -> BufferView {
        BufferView { saved_cursor: Some((self.cursor_x, self.cursor_y)), ..self }
    }

    /// The remembered cursor, if any, put back and forgotten.
    pub open spec fn restore_cursor(self) -> BufferView {
        match self.saved_cursor {
            Some((x, y)) => BufferView { cursor_x: x, cursor_y: y, saved_cursor: None, ..self },
            None => self,
        }
    }

    /// The viewport set to `width` by `height`: lines added until there are
    /// `height`, and every line cut or padded to `width`.
    pub open spec fn resize(self, width: int, height: int) -> BufferView {
        let n = self.lines.len() as int;
        BufferView {
            width: width as usize,
            height: height as usize,
            lines: Seq::new(
                (if height > n {
                    height
                } else {
                    n
                }) as nat,
                |i: int|
                    if i < n {
                        self.lines[i].resized(width as nat)
                    } else {
                        blank_line(width as nat)
                    },
            ),
            ..self
        }
    }

    /// A fresh screen of blank lines, the main lines and cursor put aside; nothing
    /// changes when the alternate screen is already in use.
    pub open spec fn switch_to_alternate(self) -> BufferView {
        if self.alternate is None {
            BufferView {
                alternate: Some(self.lines),
                alternate_cursor: Some((self.cursor_x, self.cursor_y)),
                lines: Seq::new(self.height as nat, |i: int| blank_line(self.width as nat)),
                cursor_x: 0,
                cursor_y: 0,
                ..self
            }
        } else {
            self
        }
    }

    /// The main lines, and the cursor put aside with them, back in place.
    pub open spec fn switch_to_main(self) -> BufferView {
        match self.alternate {
            Some(main) => match self.alternate_cursor {
                Some((x, y)) => BufferView {
                    lines: main,
                    alternate: None,
                    cursor_x: x,
                    cursor_y: y,
                    alternate_cursor: None,
                    ..self
                },
                None => BufferView { lines: main, alternate: None, ..self },
            },
            None => self,
        }
    }
}

/// The contents of a sequence of lines.
pub open spec fn views(q: Seq<Line>) -> Seq<LineView> {
    q.map_values(|l: Line| l@)
}

proof fn lemma_views_remove(q: Seq<Line>, i: int)
    requires
        0 <= i < q.len(),
    ensures
        views(q.remove(i)) == views(q).remove(i),
{
    assert(views(q.remove(i)) =~= views(q).remove(i));
}

proof fn lemma_views_insert(q: Seq<Line>, i: int, l: Line)
    requires
        0 <= i <= q.len(),
    ensures
        views(q.insert(i, l)) == views(q).insert(i, l@),
{
    assert(views(q.insert(i, l)) =~= views(q).insert(i, l@));
}

proof fn lemma_views_push(q: Seq<Line>, l: Line)
    ensures
        views(q.push(l)) == views(q).push(l@),
{
    assert(views(q.push(l)) =~= views(q).push(l@));
}

proof fn lemma_views_push_front(q: Seq<Line>, l: Line)
    ensures
        views(seq![l] + q) == seq![l@] + views(q),
{
    assert(views(seq![l] + q) =~= seq![l@] + views(q));
}

proof fn lemma_views_pop_front(q: Seq<Line>)
    requires
        q.len() > 0,
    ensures
        views(q.subrange(1, q.len() as int)) == views(q).skip(1),
        views(q)[0] == q[0]@,
{
    assert(views(q.subrange(1, q.len() as int)) =~= views(q).skip(1));
}

proof fn lemma_views_pop_back(q: Seq<Line>)
    requires
        q.len() > 0,
    ensures
        views(q.subrange(0, q.len() - 1)) == views(q).take(q.len() - 1),
{
    assert(views(q.subrange(0, q.len() - 1)) =~= views(q).take(q.len() - 1));
}

/// The screen contents and cursor of a terminal.
#[derive(Debug)]
pub struct Buffer {
    lines: VecDeque<Line>,
    alternate_lines: Option<VecDeque<Line>>,
    alternate_cursor: Option<(usize, usize)>,
    viewport_height: usize,
    viewport_width: usize,
    scrollback_size: usize,
    cursor_x: usize,
    cursor_y: usize,
    saved_cursor: Option<(usize, usize)>,
}

impl View for Buffer {
    type V = BufferView;

    closed spec fn view(&self) -> BufferView {
        BufferView {
            lines: views(self.lines@),
            alternate: match self.alternate_lines {
                Some(q) => Some(views(q@)),
                None => None,
            },
            alternate_cursor: self.alternate_cursor,
            height: self.viewport_height,
            width: self.viewport_width,
            scrollback: self.scrollback_size,
            cursor_x: self.cursor_x,
            cursor_y: self.cursor_y,
            saved_cursor: self.saved_cursor,
        }
    }
}

impl Line {
    /// A line of `width` blank cells.
    pub fn new(width: usize) -> (l: Self)
        ensures
            l@ == blank_line(width as nat),
    {
        let mut cells: Vec<Cell> = Vec::new();
        let mut i: usize = 0;
        while i < width
            invariant
                i <= width,
                cells@ == blanks(i as nat),
            decreases width - i,
        {
            cells.push(new_blank_cell());
            i = i + 1;
            assert(cells@ =~= blanks(i as nat));
        }
        Line { cells, wrapped: false }
    }

    /// Cut the line, or pad it with blank cells, to `new_width` cells.
    pub fn resize(&mut self, new_width: usize)
        ensures
            final(self)@ == old(self)@.resized(new_width as nat),
    {
        if new_width <= self.cells.len() {
            self.cells.truncate(new_width);
            assert(self.cells@ =~= old(self)@.resized(new_width as nat).cells);
        } else {
            let ghost n = self.cells@.len();
            while self.cells.len() < new_width
                invariant
                    n <= self.cells@.len() <= new_width,
                    self.cells@ =~= old(self).cells@ + blanks((self.cells@.len() - n) as nat),
                    self.wrapped == old(self).wrapped,
                decreases new_width - self.cells@.len(),
            {
                self.cells.push(new_blank_cell());
                assert(self.cells@ =~= old(self).cells@ + blanks((self.cells@.len() - n) as nat));
            }
        }
    }

    /// Make every cell blank and mark the line not wrapped.
    pub fn clear(&mut self)
        ensures
            final(self)@ == old(self)@.cleared(),
    {
        let n = self.cells.len();
        let mut i: usize = 0;
        while i < n
            invariant
                n == self.cells@.len(),
                i <= n,
                forall|j: int| 0 <= j < i ==> self.cells@[j] == blank_cell(),
            decreases n - i,
        {
            self.cells.set(i, new_blank_cell());
            i = i + 1;
        }
        self.wrapped = false;
        assert(self.cells@ =~= blanks(n as nat));
    }

    /// Put `c` in the cells `from <= x < to` that the line has.
    pub(crate) fn fill(&mut self, from: usize, to: usize, c: Cell)
        ensures
            final(self)@ == old(self)@.filled(from as int, to as int, c),
    {
        let n = self.cells.len();
        let end = if to < n {
            to
        } else {
            n
        };
        let mut i: usize = from;
        while i < end
            invariant
                n == self.cells@.len(),
                end <= n,
                from <= i,
                i <= end || i == from,
                self.wrapped == old(self).wrapped,
                forall|j: int|
                    0 <= j < n ==> self.cells@[j] == (if from <= j < i {
                        c
                    } else {
                        old(self).cells@[j]
                    }),
            decreases end - i,
        {
            self.cells.set(i, c);
            i = i + 1;
        }
        assert(self.cells@ =~= old(self)@.filled(from as int, to as int, c).cells);
    }
}

impl BufferView {
    /// `self` and `other` differ at most in their lines.
    pub open spec fn same_but_lines(self, other: BufferView) -> bool {
        BufferView { lines: other.lines, ..self } == other
    }
}

spec fn grown_skip_step(v: Seq<LineView>, k: int) -> bool {
    0 <= k < v.len() ==> v.skip(k).skip(1) =~= v.skip(k + 1) && v.skip(k)[0] == v[k]
}

proof fn lemma_remove_insert_is_update(v: Seq<LineView>, y: int, l: LineView)
    requires
        0 <= y < v.len(),
    ensures
        v.remove(y).insert(y, l) == v.update(y, l),
{
    assert(v.remove(y).insert(y, l) =~= v.update(y, l));
}

impl Buffer {
    /// A screen of `height` blank lines of `width` cells, keeping up to
    /// `scrollback_size` lines beyond the viewport; the cursor at the origin.
    pub fn new(width: usize, height: usize, scrollback_size: usize) -> (b: Self)
        requires
            height + scrollback_size <= usize::MAX,
        ensures
            b@ == (BufferView {
                lines: Seq::new(height as nat, |i: int| blank_line(width as nat)),
                alternate: None,
                alternate_cursor: None,
                height,
                width,
                scrollback: scrollback_size,
                cursor_x: 0,
                cursor_y: 0,
                saved_cursor: None,
            }),
    {
        let mut lines: VecDeque<Line> = VecDeque::with_capacity(height + scrollback_size);
        let mut i: usize = 0;
        while i < height
            invariant
                i <= height,
                views(lines@) =~= Seq::new(i as nat, |j: int| blank_line(width as nat)),
            decreases height - i,
        {
            let l = Line::new(width);
            proof {
                lemma_views_push(lines@, l);
            }
            lines.push_back(l);
            i = i + 1;
        }
        let b = Buffer {
            lines,
            alternate_lines: None,
            alternate_cursor: None,
            viewport_height: height,
            viewport_width: width,
            scrollback_size,
            cursor_x: 0,
            cursor_y: 0,
            saved_cursor: None,
        };
        assert(b@ =~= BufferView {
            lines: Seq::new(height as nat, |i: int| blank_line(width as nat)),
            alternate: None,
            alternate_cursor: None,
            height,
            width,
            scrollback: scrollback_size,
            cursor_x: 0,
            cursor_y: 0,
            saved_cursor: None,
        });
        b
    }

    /// Set the viewport to `new_width` by `new_height`: add blank lines until there
    /// are `new_height` lines and cut or pad every line to `new_width` cells. The
    /// cursor is left where it was.
    pub fn resize(&mut self, new_width: usize, new_height: usize)
        ensures
            final(self)@ == old(self)@.resize(new_width as int, new_height as int),
    {
        self.viewport_width = new_width;
        self.viewport_height = new_height;
        let mut lines: VecDeque<Line> = VecDeque::new();
        std::mem::swap(&mut lines, &mut self.lines);
        let ghost n = lines@.len();
        while lines.len() < new_height
            invariant
                n <= lines@.len(),
                n < new_height ==> lines@.len() <= new_height,
                n >= new_height ==> lines@.len() == n,
                views(lines@) =~= views(old(self).lines@) + Seq::new(
                    (lines@.len() - n) as nat,
                    |j: int| blank_line(new_width as nat),
                ),
            decreases new_height - lines@.len(),
        {
            let l = Line::new(new_width);
            proof {
                lemma_views_push(lines@, l);
            }
            lines.push_back(l);
        }
        let ghost grown = views(lines@);
        let mut done: VecDeque<Line> = VecDeque::new();
        while lines.len() > 0
            invariant
                grown.len() == done@.len() + lines@.len(),
                views(done@) =~= grown.take(done@.len() as int).map_values(
                    |l: LineView| l.resized(new_width as nat),
                ),
                views(lines@) =~= grown.skip(done@.len() as int),
            decreases lines@.len(),
        {
            let ghost before = lines@;
            let mut line = lines.pop_front().unwrap();
            proof {
                lemma_views_pop_front(before);
                assert(grown_skip_step(grown, done@.len() as int));
            }
            line.resize(new_width);
            proof {
                lemma_views_push(done@, line);
                assert(grown.take(done@.len() + 1int) =~= grown.take(done@.len() as int).push(
                    grown[done@.len() as int],
                ));
            }
            done.push_back(line);
        }
        self.lines = done;
        proof {
            let target = old(self)@.resize(new_width as int, new_height as int);
            assert(grown.take(grown.len() as int) =~= grown);
            assert(blanks(new_width as nat).take(new_width as int) =~= blanks(new_width as nat));
            assert(blank_line(new_width as nat).resized(new_width as nat) =~= blank_line(
                new_width as nat,
            ));
            assert forall|i: int| 0 <= i < grown.len() implies #[trigger] grown[i].resized(
                new_width as nat,
            ) == target.lines[i] by {
                if i >= n {
                    assert(grown[i] == blank_line(new_width as nat));
                }
            }
            assert(views(self.lines@) =~= target.lines);
        }
        assert(self@ =~= old(self)@.resize(new_width as int, new_height as int));
    }

    /// Put `cell` at `(x, y)` if the buffer has that cell.
    pub fn set_cell(&mut self, x: usize, y: usize, cell: Cell)
        ensures
            final(self)@ == old(self)@.set_cell(x as int, y as int, cell),
    {
        if y < self.lines.len() {
            let mut line = self.lines.remove(y).unwrap();
            if x < line.cells.len() {
                line.cells.set(x, cell);
            }
            proof {
                lemma_views_remove(old(self).lines@, y as int);
                lemma_views_insert(self.lines@, y as int, line);
                lemma_remove_insert_is_update(views(old(self).lines@), y as int, line@);
                assert(line@ =~= old(self)@.lines[y as int].filled(x as int, x + 1, cell));
            }
            self.lines.insert(y, line);
            assert(self@ =~= old(self)@.set_cell(x as int, y as int, cell));
        }
    }

    /// Put `c` in cells `from <= x < to` of line `y`, where they exist.
    pub(crate) fn fill(&mut self, y: usize, from: usize, to: usize, c: Cell)
        ensures
            final(self)@ == old(self)@.fill(y as int, from as int, to as int, c),
    {
        if y < self.lines.len() {
            let mut line = self.lines.remove(y).unwrap();
            line.fill(from, to, c);
            proof {
                lemma_views_remove(old(self).lines@, y as int);
                lemma_views_insert(self.lines@, y as int, line);
                lemma_remove_insert_is_update(views(old(self).lines@), y as int, line@);
            }
            self.lines.insert(y, line);
            assert(self@ =~= old(self)@.fill(y as int, from as int, to as int, c));
        }
    }

    /// The cell at `(x, y)`, if the buffer has it.
    pub fn get_cell(&self, x: usize, y: usize) -> (r: Option<&Cell>)
        ensures
            r == (if y < self@.lines.len() && x < self@.lines[y as int].cells.len() {
                Some(&self@.lines[y as int].cells[x as int])
            } else {
                None
            }),
    {
        if y < self.lines.len() {
            let line = &self.lines[y];
            if x < line.cells.len() {
                return Some(&line.cells[x]);
            }
        }
        None
    }

    /// Clear every line and put the cursor at the origin.
    pub fn clear(&mut self)
        ensures
            final(self)@ == old(self)@.clear(),
    {
        let mut lines: VecDeque<Line> = VecDeque::new();
        std::mem::swap(&mut lines, &mut self.lines);
        let ghost start = views(lines@);
        let mut done: VecDeque<Line> = VecDeque::new();
        while lines.len() > 0
            invariant
                start.len() == done@.len() + lines@.len(),
                views(done@) =~= start.take(done@.len() as int).map_values(
                    |l: LineView| l.cleared(),
                ),
                views(lines@) =~= start.skip(done@.len() as int),
            decreases lines@.len(),
        {
            let ghost before = lines@;
            let mut line = lines.pop_front().unwrap();
            proof {
                lemma_views_pop_front(before);
                assert(grown_skip_step(start, done@.len() as int));
            }
            line.clear();
            proof {
                lemma_views_push(done@, line);
                assert(start.take(done@.len() + 1int) =~= start.take(done@.len() as int).push(
                    start[done@.len() as int],
                ));
            }
            done.push_back(line);
        }
        self.lines = done;
        self.cursor_x = 0;
        self.cursor_y = 0;
        assert(start.take(start.len() as int) =~= start);
        assert(views(self.lines@) =~= old(self)@.clear().lines);
        assert(self@ =~= old(self)@.clear());
    }

    /// Clear line `y`, if there is one.
    pub fn clear_line(&mut self, y: usize)
        ensures
            final(self)@ == old(self)@.clear_line(y as int),
    {
        if y < self.lines.len() {
            let mut line = self.lines.remove(y).unwrap();
            line.clear();
            proof {
                lemma_views_remove(old(self).lines@, y as int);
                lemma_views_insert(self.lines@, y as int, line);
                lemma_remove_insert_is_update(views(old(self).lines@), y as int, line@);
            }
            self.lines.insert(y, line);
            assert(self@ =~= old(self)@.clear_line(y as int));
        }
    }

    /// Blank the cursor's line from the cursor on, and clear the viewport lines
    /// below it.
    pub fn clear_from_cursor_to_end(&mut self)
        ensures
            final(self)@ == old(self)@.clear_to_end(),
    {
        let x = self.cursor_x;
        let y = self.cursor_y;
        let c = new_blank_cell();
        if y < self.lines.len() {
            let n = self.lines[y].cells.len();
            self.fill(y, x, n, c);
        }
        let h = self.viewport_height;
        let mut i: usize = if y < h {
            y + 1
        } else {
            h
        };
        let ghost mid = self@;
        while i < h
            invariant
                old(self)@.cursor_x == x,
                old(self)@.cursor_y == y,
                h == old(self)@.height,
                y < h ==> y < i,
                y >= h ==> i == h,
                i <= h,
                self@.same_but_lines(old(self)@),
                self@.lines.len() == old(self)@.lines.len(),
                forall|j: int|
                    0 <= j < self@.lines.len() ==> #[trigger] self@.lines[j] == (if j == y {
                        old(self)@.lines[j].filled(
                            x as int,
                            old(self)@.lines[j].cells.len() as int,
                            blank_cell(),
                        )
                    } else if y < j && j < i {
                        old(self)@.lines[j].cleared()
                    } else {
                        old(self)@.lines[j]
                    }),
            decreases h - i,
        {
            let ghost prev = self@;
            self.clear_line(i);
            assert forall|j: int| 0 <= j < self@.lines.len() implies #[trigger] self@.lines[j] == (
            if j == y {
                old(self)@.lines[j].filled(
                    x as int,
                    old(self)@.lines[j].cells.len() as int,
                    blank_cell(),
                )
            } else if y < j && j < i + 1 {
                old(self)@.lines[j].cleared()
            } else {
                old(self)@.lines[j]
            }) by {
                assert(prev.lines[j] == (if j == y {
                    old(self)@.lines[j].filled(
                        x as int,
                        old(self)@.lines[j].cells.len() as int,
                        blank_cell(),
                    )
                } else if y < j && j < i {
                    old(self)@.lines[j].cleared()
                } else {
                    old(self)@.lines[j]
                }));
            }
            i = i + 1;
        }
        assert(self@ =~= old(self)@.clear_to_end());
    }

    /// Clear the lines above the cursor and blank its line up to and with the
    /// cursor's cell.
    pub fn clear_from_start_to_cursor(&mut self)
        ensures
            final(self)@ == old(self)@.clear_from_start(),
    {
        let x = self.cursor_x;
        let y = self.cursor_y;
        let mut i: usize = 0;
        while i < y
            invariant
                old(self)@.cursor_x == x,
                old(self)@.cursor_y == y,
                i <= y,
                self@.same_but_lines(old(self)@),
                self@.lines.len() == old(self)@.lines.len(),
                forall|j: int|
                    0 <= j < self@.lines.len() ==> #[trigger] self@.lines[j] == (if j < i {
                        old(self)@.lines[j].cleared()
                    } else {
                        old(self)@.lines[j]
                    }),
            decreases y - i,
        {
            self.clear_line(i);
            i = i + 1;
        }
        if y < self.lines.len() {
            let n = self.lines[y].cells.len();
            let end = if x < n {
                x + 1
            } else {
                n
            };
            self.fill(y, 0, end, new_blank_cell());
        }
        assert(self@ =~= old(self)@.clear_from_start());
    }
}

impl Buffer {
    /// Scroll the whole viewport up by `count` lines.
    pub fn scroll_up(&mut self, count: usize)
        ensures
            final(self)@ == old(self)@.scroll_up_region(0, old(self)@.height as int, count as int),
    {
        let h = self.viewport_height;
        self.scroll_up_in_region(0, h, count);
    }

    /// Scroll the whole viewport down by `count` lines.
    pub fn scroll_down(&mut self, count: usize)
        ensures
            final(self)@ == old(self)@.scroll_down_region(0, old(self)@.height as int, count as int),
    {
        let h = self.viewport_height;
        self.scroll_down_in_region(0, h, count);
    }

    /// Scroll the lines `top..bottom` (held to the lines there are) up by `count`
    /// (at most the region's height): the top line of the region leaves and a
    /// blank line comes in at its bottom, `count` times.
    pub fn scroll_up_in_region(&mut self, top: usize, bottom: usize, count: usize)
        ensures
            final(self)@ == old(self)@.scroll_up_region(top as int, bottom as int, count as int),
    {
        let n = self.lines.len();
        let b = if bottom < n {
            bottom
        } else {
            n
        };
        if top < b {
            let k = if count < b - top {
                count
            } else {
                b - top
            };
            let w = self.viewport_width;
            let mut lines: VecDeque<Line> = VecDeque::new();
            std::mem::swap(&mut lines, &mut self.lines);
            let ghost start = views(lines@);
            let mut i: usize = 0;
            assert(start.take(top as int) + start.subrange(top as int, b as int) + blank_lines(
                0,
                w as nat,
            ) + start.skip(b as int) =~= start);
            while i < k
                invariant
                    i <= k,
                    top < b,
                    b <= start.len(),
                    k <= b - top,
                    lines@.len() == start.len(),
                    views(lines@) =~= start.take(top as int) + start.subrange(top + i, b as int)
                        + blank_lines(i as nat, w as nat) + start.skip(b as int),
                decreases k - i,
            {
                let ghost q = lines@;
                lines.remove(top);
                proof {
                    lemma_views_remove(q, top as int);
                }
                let l = Line::new(w);
                let ghost q2 = lines@;
                lines.insert(b - 1, l);
                proof {
                    lemma_views_insert(q2, b - 1, l);
                }
                assert(views(lines@) =~= start.take(top as int) + start.subrange(
                    top + i + 1,
                    b as int,
                ) + blank_lines((i + 1) as nat, w as nat) + start.skip(b as int));
                i = i + 1;
            }
            self.lines = lines;
        } else if n <= top && top < bottom {
            let k = if count < bottom - top {
                count
            } else {
                bottom - top
            };
            let w = self.viewport_width;
            let mut lines: VecDeque<Line> = VecDeque::new();
            std::mem::swap(&mut lines, &mut self.lines);
            let ghost start = views(lines@);
            let mut i: usize = 0;
            assert(start + blank_lines(0, w as nat) =~= start);
            while i < k
                invariant
                    i <= k,
                    views(lines@) =~= start + blank_lines(i as nat, w as nat),
                decreases k - i,
            {
                let l = Line::new(w);
                let ghost q = lines@;
                lines.push_back(l);
                proof {
                    lemma_views_push(q, l);
                }
                assert(views(lines@) =~= start + blank_lines((i + 1) as nat, w as nat));
                i = i + 1;
            }
            self.lines = lines;
        }
        assert(self@ =~= old(self)@.scroll_up_region(top as int, bottom as int, count as int));
    }

    /// Scroll the lines `top..bottom` down by `count` (at most the region's
    /// height): within the lines, the bottom line of the region leaves and a
    /// blank line comes in at its top, `count` times; a region that reaches past
    /// the last line only gets blank lines put in at its top.
    pub fn scroll_down_in_region(&mut self, top: usize, bottom: usize, count: usize)
        ensures
            final(self)@ == old(self)@.scroll_down_region(top as int, bottom as int, count as int),
    {
        let n = self.lines.len();
        if top < bottom {
            let k = if count < bottom - top {
                count
            } else {
                bottom - top
            };
            let w = self.viewport_width;
            let mut lines: VecDeque<Line> = VecDeque::new();
            std::mem::swap(&mut lines, &mut self.lines);
            let ghost start = views(lines@);
            let mut i: usize = 0;
            if bottom <= n {
                let b = bottom;
                assert(start.take(top as int) + blank_lines(0, w as nat) + start.subrange(
                    top as int,
                    b as int,
                ) + start.skip(b as int) =~= start);
                while i < k
                    invariant
                        i <= k,
                        top < b,
                        b <= start.len(),
                        k <= b - top,
                        lines@.len() == start.len(),
                        views(lines@) =~= start.take(top as int) + blank_lines(i as nat, w as nat)
                            + start.subrange(top as int, b - i) + start.skip(b as int),
                    decreases k - i,
                {
                    let ghost q = lines@;
                    lines.remove(b - 1);
                    proof {
                        lemma_views_remove(q, b - 1);
                    }
                    let l = Line::new(w);
                    let ghost q2 = lines@;
                    lines.insert(top, l);
                    proof {
                        lemma_views_insert(q2, top as int, l);
                    }
                    assert(views(lines@) =~= start.take(top as int) + blank_lines(
                        (i + 1) as nat,
                        w as nat,
                    ) + start.subrange(top as int, b - i - 1) + start.skip(b as int));
                    i = i + 1;
                }
            } else if top < n {
                assert(start.take(top as int) + blank_lines(0, w as nat) + start.skip(top as int)
                    =~= start);
                while i < k
                    invariant
                        i <= k,
                        top < start.len(),
                        lines@.len() == start.len() + i,
                        views(lines@) =~= start.take(top as int) + blank_lines(i as nat, w as nat)
                            + start.skip(top as int),
                    decreases k - i,
                {
                    let l = Line::new(w);
                    let ghost q = lines@;
                    lines.insert(top, l);
                    proof {
                        lemma_views_insert(q, top as int, l);
                    }
                    assert(views(lines@) =~= start.take(top as int) + blank_lines(
                        (i + 1) as nat,
                        w as nat,
                    ) + start.skip(top as int));
                    i = i + 1;
                }
            } else {
                assert(blank_lines(0, w as nat) + start =~= start);
                while i < k
                    invariant
                        i <= k,
                        views(lines@) =~= blank_lines(i as nat, w as nat) + start,
                    decreases k - i,
                {
                    let l = Line::new(w);
                    let ghost q = lines@;
                    lines.push_front(l);
                    proof {
                        lemma_views_push_front(q, l);
                    }
                    assert(views(lines@) =~= blank_lines((i + 1) as nat, w as nat) + start);
                    i = i + 1;
                }
            }
            self.lines = lines;
        }
        assert(self@ =~= old(self)@.scroll_down_region(top as int, bottom as int, count as int));
    }

    /// Put `count` blank lines in at line `at`, then drop lines from the end beyond
    /// the viewport and its scrollback.
    pub fn insert_lines(&mut self, at: usize, count: usize)
        requires
            count == 0 || at <= old(self)@.lines.len(),
            old(self)@.height + old(self)@.scrollback <= usize::MAX,
        ensures
            final(self)@ == old(self)@.insert_lines(at as int, count as int),
    {
        let w = self.viewport_width;
        let cap = self.viewport_height + self.scrollback_size;
        let mut lines: VecDeque<Line> = VecDeque::new();
        std::mem::swap(&mut lines, &mut self.lines);
        let ghost start = views(lines@);
        let mut i: usize = 0;
        while i < count
            invariant
                i <= count,
                count > 0 ==> at <= start.len(),
                lines@.len() == start.len() + i,
                i == 0 ==> views(lines@) == start,
                i > 0 ==> views(lines@) =~= start.take(at as int) + Seq::new(
                    i as nat,
                    |j: int| blank_line(w as nat),
                ) + start.skip(at as int),
            decreases count - i,
        {
            proof {
                if i == 0 {
                    assert(start.take(at as int) + Seq::new(0, |j: int| blank_line(w as nat))
                        + start.skip(at as int) =~= start);
                }
            }
            let l = Line::new(w);
            let ghost q = lines@;
            lines.insert(at, l);
            proof {
                lemma_views_insert(q, at as int, l);
            }
            i = i + 1;
        }
        let ghost grown = views(lines@);
        while lines.len() > cap
            invariant
                lines@.len() <= grown.len(),
                views(lines@) =~= grown.take(lines@.len() as int),
                grown.len() > cap ==> lines@.len() >= cap,
                grown.len() <= cap ==> lines@.len() == grown.len(),
            decreases lines@.len(),
        {
            let ghost q = lines@;
            lines.pop_back();
            proof {
                lemma_views_pop_back(q);
                assert(grown.take(q.len() as int).take(q.len() - 1) =~= grown.take(q.len() - 1));
            }
        }
        self.lines = lines;
        assert(grown.take(grown.len() as int) =~= grown);
        assert(self@ =~= old(self)@.insert_lines(at as int, count as int));
    }

    /// Take up to `count` lines out of the screen from line `at` on, move the lines
    /// below them up to the last row up, and add blank lines above the last row,
    /// so that the screen keeps its height.
    pub fn delete_lines(&mut self, at: usize, count: usize)
        ensures
            final(self)@ == old(self)@.delete_lines(at as int, count as int),
    {
        if at < self.lines.len() {
            let h = self.viewport_height;
            self.scroll_up_in_region(at, h, count);
        }
    }
}

impl Line {
    /// The cells from `x` to `x + count` taken out, the rest moved left, and blank
    /// cells added while the line is narrower than `width`.
    fn delete_chars(&mut self, x: usize, count: usize, width: usize)
        requires
            x <= old(self).cells@.len(),
        ensures
            final(self)@ == old(self)@.chars_deleted(x as int, count as int, width as nat),
    {
        let n = self.cells.len();
        let end = if count < n - x {
            x + count
        } else {
            n
        };
        let mut kept: Vec<Cell> = Vec::new();
        let mut i: usize = 0;
        while i < x
            invariant
                x <= n,
                n == self.cells@.len(),
                i <= x,
                kept@ =~= self.cells@.take(i as int),
            decreases x - i,
        {
            kept.push(self.cells[i]);
            i = i + 1;
        }
        let mut j: usize = end;
        while j < n
            invariant
                x <= end <= j <= n,
                n == self.cells@.len(),
                kept@ =~= self.cells@.take(x as int) + self.cells@.subrange(end as int, j as int),
            decreases n - j,
        {
            kept.push(self.cells[j]);
            j = j + 1;
        }
        assert(self.cells@.subrange(end as int, n as int) =~= self.cells@.skip(end as int));
        let ghost k = kept@;
        while kept.len() < width
            invariant
                kept@.len() >= k.len(),
                k.len() < width ==> kept@.len() <= width,
                k.len() >= width ==> kept@.len() == k.len(),
                kept@ =~= k + blanks((kept@.len() - k.len()) as nat),
            decreases width - kept@.len(),
        {
            kept.push(new_blank_cell());
        }
        self.cells = kept;
        assert(self@ =~= old(self)@.chars_deleted(x as int, count as int, width as nat));
    }
}

impl Buffer {
    /// Take up to `count` cells out of line `y` from column `x`, move the rest
    /// left and pad the line with blank cells to the viewport width. Defined where
    /// there is no line `y`, or `x` is within it and `x + count` fits in a `usize`.
    pub fn delete_chars(&mut self, x: usize, y: usize, count: usize)
        requires
            y >= old(self)@.lines.len() || (x <= old(self)@.lines[y as int].cells.len() && x
                + count <= usize::MAX),
        ensures
            final(self)@ == old(self)@.delete_chars(x as int, y as int, count as int),
    {
        if y < self.lines.len() {
            let w = self.viewport_width;
            let mut line = self.lines.remove(y).unwrap();
            proof {
                lemma_views_remove(old(self).lines@, y as int);
            }
            line.delete_chars(x, count, w);
            proof {
                lemma_views_insert(self.lines@, y as int, line);
                lemma_remove_insert_is_update(views(old(self).lines@), y as int, line@);
            }
            self.lines.insert(y, line);
            assert(self@ =~= old(self)@.delete_chars(x as int, y as int, count as int));
        }
    }

    /// Make `count` cells of line `y` from column `x` blank. Defined where there is
    /// no line `y`, or `x + count` fits in a `usize`.
    pub fn erase_chars(&mut self, x: usize, y: usize, count: usize)
        requires
            y >= old(self)@.lines.len() || x + count <= usize::MAX,
        ensures
            final(self)@ == old(self)@.erase_chars(x as int, y as int, count as int),
    {
        if y < self.lines.len() {
            let n = self.lines[y].cells.len();
            let end = if x <= n && count < n - x {
                x + count
            } else {
                n
            };
            self.fill(y, x, end, new_blank_cell());
            proof {
                let l = old(self)@.lines[y as int];
                assert(l.filled(x as int, end as int, blank_cell()) =~= l.filled(
                    x as int,
                    min_int(x + count, n as int),
                    blank_cell(),
                ));
            }
        }
    }

    /// Put the cursor at `(x, y)`, each held inside the viewport.
    pub fn move_cursor(&mut self, x: usize, y: usize)
        ensures
            final(self)@ == old(self)@.move_cursor(x as int, y as int),
    {
        self.cursor_x = if x < self.viewport_width.saturating_sub(1) {
            x
        } else {
            self.viewport_width.saturating_sub(1)
        };
        self.cursor_y = if y < self.viewport_height.saturating_sub(1) {
            y
        } else {
            self.viewport_height.saturating_sub(1)
        };
        assert(self@ =~= old(self)@.move_cursor(x as int, y as int));
    }

    /// Remember the cursor.
    pub fn save_cursor(&mut self)
        ensures
            final(self)@ == old(self)@.save_cursor(),
    {
        self.saved_cursor = Some((self.cursor_x, self.cursor_y));
        assert(self@ =~= old(self)@.save_cursor());
    }

    /// Put back the remembered cursor, if any, and forget it.
    pub fn restore_cursor(&mut self)
        ensures
            final(self)@ == old(self)@.restore_cursor(),
    {
        if let Some((x, y)) = self.saved_cursor {
            self.cursor_x = x;
            self.cursor_y = y;
            self.saved_cursor = None;
        }
        assert(self@ =~= old(self)@.restore_cursor());
    }

    /// The cursor as `(column, row)`.
    pub fn cursor_position(&self) -> (r: (usize, usize))
        ensures
            r == (self@.cursor_x, self@.cursor_y),
    {
        (self.cursor_x, self.cursor_y)
    }

    /// Put the main lines and cursor aside and show a blank screen with the cursor
    /// at the origin; nothing changes when the alternate screen is already shown.
    pub fn switch_to_alternate(&mut self)
        ensures
            final(self)@ == old(self)@.switch_to_alternate(),
    {
        if self.alternate_lines.is_none() {
            let mut fresh: VecDeque<Line> = VecDeque::with_capacity(self.viewport_height);
            std::mem::swap(&mut fresh, &mut self.lines);
            self.alternate_lines = Some(fresh);
            self.alternate_cursor = Some((self.cursor_x, self.cursor_y));
            let h = self.viewport_height;
            let w = self.viewport_width;
            let mut lines: VecDeque<Line> = VecDeque::new();
            std::mem::swap(&mut lines, &mut self.lines);
            let mut i: usize = 0;
            while i < h
                invariant
                    i <= h,
                    views(lines@) =~= Seq::new(i as nat, |j: int| blank_line(w as nat)),
                decreases h - i,
            {
                let l = Line::new(w);
                proof {
                    lemma_views_push(lines@, l);
                }
                lines.push_back(l);
                i = i + 1;
            }
            self.lines = lines;
            self.cursor_x = 0;
            self.cursor_y = 0;
        }
        assert(self@ =~= old(self)@.switch_to_alternate());
    }

    /// Put the main lines back in place, and the cursor put aside with them.
    pub fn switch_to_main(&mut self)
        ensures
            final(self)@ == old(self)@.switch_to_main(),
    {
        if let Some(main_lines) = self.alternate_lines.take() {
            self.lines = main_lines;
            if let Some((x, y)) = self.alternate_cursor.take() {
                self.cursor_x = x;
                self.cursor_y = y;
            }
        }
        assert(self@ =~= old(self)@.switch_to_main());
    }

    /// The lines, from the top of the viewport down.
    pub fn lines(&self) -> (r: &VecDeque<Line>)
        ensures
            views(r@) == self@.lines,
    {
        &self.lines
    }

    /// The number of rows of the viewport.
    pub fn viewport_height(&self) -> (r: usize)
        ensures
            r == self@.height,
    {
        self.viewport_height
    }

    /// The number of lines kept beyond the viewport.
    pub(crate) fn scrollback_size(&self) -> (r: usize)
        ensures
            r == self@.scrollback,
    {
        self.scrollback_size
    }

    /// The number of columns of the viewport.
    pub fn viewport_width(&self) -> (r: usize)
        ensures
            r == self@.width,
    {
        self.viewport_width
    }
}

} // verus!
