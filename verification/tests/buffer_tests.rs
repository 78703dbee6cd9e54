use creeper_term::terminal::buffer::{Buffer, Cell, CellAttributes, Color, Line};

fn plain(c: char) -> Cell {
    Cell { char: c, attributes: CellAttributes::default() }
}

fn row(b: &Buffer, y: usize) -> String {
    b.lines()[y].cells.iter().map(|c| c.char).collect()
}

/// A `w` by `h` buffer whose row `y` holds the letters from `rows[y]`.
fn filled(w: usize, rows: &[&str]) -> Buffer {
    let mut b = Buffer::new(w, rows.len(), 0);
    for (y, r) in rows.iter().enumerate() {
        for (x, c) in r.chars().enumerate() {
            b.set_cell(x, y, plain(c));
        }
    }
    b
}

#[test]
fn new_buffer_is_blank_with_cursor_home() {
    let b = Buffer::new(80, 24, 1000);
    assert_eq!(b.lines().len(), 24);
    assert_eq!(b.viewport_width(), 80);
    assert_eq!(b.viewport_height(), 24);
    assert_eq!(b.cursor_position(), (0, 0));
    for line in b.lines() {
        assert_eq!(line.cells.len(), 80);
        assert!(!line.wrapped);
        assert!(line.cells.iter().all(|c| c.char == ' ' && c.attributes == CellAttributes::default()));
    }
}

#[test]
fn set_and_get_cell() {
    let mut b = Buffer::new(4, 2, 0);
    b.set_cell(2, 1, plain('x'));
    assert_eq!(b.get_cell(2, 1).map(|c| c.char), Some('x'));
    assert_eq!(b.get_cell(1, 1).map(|c| c.char), Some(' '));
    assert!(b.get_cell(4, 0).is_none());
    assert!(b.get_cell(0, 2).is_none());
    // Writing outside the screen changes nothing.
    b.set_cell(9, 0, plain('y'));
    b.set_cell(0, 9, plain('y'));
    assert_eq!(row(&b, 0), "    ");
    assert_eq!(row(&b, 1), "  x ");
}

#[test]
fn clear_blanks_everything_and_homes_cursor() {
    let mut b = filled(3, &["abc", "def"]);
    b.move_cursor(2, 1);
    b.clear();
    assert_eq!(row(&b, 0), "   ");
    assert_eq!(row(&b, 1), "   ");
    assert_eq!(b.cursor_position(), (0, 0));
}

#[test]
fn clear_line_blanks_one_row() {
    let mut b = filled(3, &["abc", "def"]);
    b.clear_line(1);
    b.clear_line(7);
    assert_eq!(row(&b, 0), "abc");
    assert_eq!(row(&b, 1), "   ");
}

#[test]
fn clear_from_cursor_to_end_keeps_what_is_before() {
    let mut b = filled(4, &["abcd", "efgh", "ijkl"]);
    b.move_cursor(2, 1);
    b.clear_from_cursor_to_end();
    assert_eq!(row(&b, 0), "abcd");
    assert_eq!(row(&b, 1), "ef  ");
    assert_eq!(row(&b, 2), "    ");
    assert_eq!(b.cursor_position(), (2, 1));
}

#[test]
fn clear_from_start_to_cursor_includes_the_cursor_cell() {
    let mut b = filled(4, &["abcd", "efgh", "ijkl"]);
    b.move_cursor(2, 1);
    b.clear_from_start_to_cursor();
    assert_eq!(row(&b, 0), "    ");
    assert_eq!(row(&b, 1), "   h");
    assert_eq!(row(&b, 2), "ijkl");
}

#[test]
fn scroll_up_moves_lines_up_and_adds_blank_at_bottom() {
    let mut b = filled(2, &["aa", "bb", "cc"]);
    b.scroll_up(1);
    assert_eq!(b.lines().len(), 3);
    assert_eq!(row(&b, 0), "bb");
    assert_eq!(row(&b, 1), "cc");
    assert_eq!(row(&b, 2), "  ");
}

#[test]
fn scroll_down_moves_lines_down_and_adds_blank_at_top() {
    let mut b = filled(2, &["aa", "bb", "cc"]);
    b.scroll_down(2);
    assert_eq!(b.lines().len(), 3);
    assert_eq!(row(&b, 0), "  ");
    assert_eq!(row(&b, 1), "  ");
    assert_eq!(row(&b, 2), "aa");
}

#[test]
fn scroll_in_region() {
    // Only the lines of the region move; the lines outside it stay.
    let mut b = filled(1, &["a", "b", "c", "d"]);
    b.scroll_up_in_region(1, 3, 1);
    let rows: Vec<String> = (0..4).map(|y| row(&b, y)).collect();
    assert_eq!(rows, vec!["a", "c", " ", "d"]);

    let mut b = filled(1, &["a", "b", "c", "d"]);
    b.scroll_down_in_region(1, 3, 1);
    let rows: Vec<String> = (0..4).map(|y| row(&b, y)).collect();
    assert_eq!(rows, vec!["a", " ", "b", "d"]);
}

#[test]
fn scrolling_a_region_of_one_line_blanks_only_it() {
    let mut b = filled(1, &["A", "B", "C"]);
    b.scroll_up_in_region(0, 2, 1);
    let rows: Vec<String> = (0..3).map(|y| row(&b, y)).collect();
    assert_eq!(rows, vec!["B", " ", "C"]);

    let mut b = filled(1, &["A", "B", "C"]);
    b.scroll_down_in_region(2, 3, 1);
    let rows: Vec<String> = (0..3).map(|y| row(&b, y)).collect();
    assert_eq!(rows, vec!["A", "B", " "]);
}

#[test]
fn scroll_count_is_limited_by_region_height() {
    let mut b = filled(1, &["a", "b", "c"]);
    b.scroll_up_in_region(0, 2, 10);
    let rows: Vec<String> = (0..3).map(|y| row(&b, y)).collect();
    assert_eq!(rows, vec![" ", " ", "c"]);
    assert_eq!(b.lines().len(), 3);
}

#[test]
fn a_region_past_the_lines() {
    // Starting within the lines, the region is cut to them.
    let mut b = filled(1, &["a", "b", "c"]);
    b.scroll_up_in_region(1, 10, 1);
    let rows: Vec<String> = (0..b.lines().len()).map(|y| row(&b, y)).collect();
    assert_eq!(rows, vec!["a", "c", " "]);
    // Starting past the last line, scrolling up adds blank lines at the end.
    let mut b = filled(1, &["a"]);
    b.scroll_up_in_region(1, 3, 2);
    let rows: Vec<String> = (0..b.lines().len()).map(|y| row(&b, y)).collect();
    assert_eq!(rows, vec!["a", " ", " "]);
    // Reaching past the last line, scrolling down puts blank lines in at the top
    // of the region and takes none out.
    let mut b = filled(1, &["a", "b"]);
    b.scroll_down_in_region(1, 5, 1);
    let rows: Vec<String> = (0..b.lines().len()).map(|y| row(&b, y)).collect();
    assert_eq!(rows, vec!["a", " ", "b"]);
    // Starting past the last line, they go in at the front.
    let mut b = filled(1, &["a", "b"]);
    b.scroll_down_in_region(3, 5, 2);
    let rows: Vec<String> = (0..b.lines().len()).map(|y| row(&b, y)).collect();
    assert_eq!(rows, vec![" ", " ", "a", "b"]);
}

#[test]
fn insert_lines_drops_lines_past_the_limit() {
    let mut b = filled(1, &["a", "b", "c"]);
    b.insert_lines(1, 1);
    let rows: Vec<String> = (0..b.lines().len()).map(|y| row(&b, y)).collect();
    assert_eq!(rows, vec!["a", " ", "b"]);
}

#[test]
fn insert_lines_keeps_scrollback() {
    let mut b = Buffer::new(1, 2, 1);
    b.set_cell(0, 0, plain('a'));
    b.set_cell(0, 1, plain('b'));
    b.insert_lines(0, 2);
    let rows: Vec<String> = (0..b.lines().len()).map(|y| row(&b, y)).collect();
    assert_eq!(rows, vec![" ", " ", "a"]);
}

#[test]
fn delete_lines_keeps_the_height() {
    let mut b = filled(1, &["a", "b", "c"]);
    b.delete_lines(1, 1);
    let rows: Vec<String> = (0..b.lines().len()).map(|y| row(&b, y)).collect();
    assert_eq!(rows, vec!["a", "c", " "]);
    b.delete_lines(5, 3);
    assert_eq!(b.lines().len(), 3);
    b.delete_lines(0, 9);
    let rows: Vec<String> = (0..b.lines().len()).map(|y| row(&b, y)).collect();
    assert_eq!(rows, vec![" ", " ", " "]);
}

#[test]
fn delete_chars_shifts_left_and_pads() {
    let mut b = filled(4, &["abcd"]);
    b.delete_chars(1, 0, 2);
    assert_eq!(row(&b, 0), "ad  ");
    b.delete_chars(0, 0, 100);
    assert_eq!(row(&b, 0), "    ");
}

#[test]
fn erase_chars_blanks_in_place() {
    let mut b = filled(4, &["abcd"]);
    b.erase_chars(1, 0, 2);
    assert_eq!(row(&b, 0), "a  d");
    b.erase_chars(3, 0, 50);
    assert_eq!(row(&b, 0), "a   ");
}

#[test]
fn move_cursor_is_clamped_to_the_viewport() {
    let mut b = Buffer::new(10, 5, 0);
    b.move_cursor(3, 4);
    assert_eq!(b.cursor_position(), (3, 4));
    b.move_cursor(100, 100);
    assert_eq!(b.cursor_position(), (9, 4));
}

#[test]
fn restore_returns_to_saved_position_once() {
    let mut b = Buffer::new(10, 5, 0);
    b.move_cursor(3, 2);
    b.save_cursor();
    b.move_cursor(7, 4);
    b.restore_cursor();
    assert_eq!(b.cursor_position(), (3, 2));
    b.move_cursor(1, 1);
    b.restore_cursor();
    assert_eq!(b.cursor_position(), (1, 1));
}

#[test]
fn alternate_screen_keeps_the_main_screen() {
    let mut b = filled(3, &["abc", "def"]);
    b.move_cursor(1, 1);
    b.switch_to_alternate();
    assert_eq!(b.cursor_position(), (0, 0));
    assert_eq!(row(&b, 0), "   ");
    b.set_cell(0, 0, plain('z'));
    // A second switch while on the alternate screen changes nothing.
    b.switch_to_alternate();
    assert_eq!(row(&b, 0), "z  ");
    b.switch_to_main();
    assert_eq!(row(&b, 0), "abc");
    assert_eq!(row(&b, 1), "def");
    assert_eq!(b.cursor_position(), (1, 1));
    // Switching to the main screen again changes nothing.
    b.switch_to_main();
    assert_eq!(row(&b, 0), "abc");
}

#[test]
fn resize_grows_lines_and_never_drops_rows() {
    let mut b = filled(2, &["ab", "cd"]);
    b.resize(4, 3);
    assert_eq!(b.lines().len(), 3);
    assert_eq!(row(&b, 0), "ab  ");
    assert_eq!(row(&b, 2), "    ");
    b.resize(1, 1);
    assert_eq!(b.lines().len(), 3);
    assert_eq!(row(&b, 0), "a");
    assert_eq!(row(&b, 1), "c");
    assert_eq!(b.viewport_width(), 1);
    assert_eq!(b.viewport_height(), 1);
}

#[test]
fn line_new_resize_clear() {
    let mut l = Line::new(3);
    assert_eq!(l.cells.len(), 3);
    l.cells[0] = Cell {
        char: 'q',
        attributes: CellAttributes { bold: true, foreground: Some(Color::Red), ..CellAttributes::default() },
    };
    l.wrapped = true;
    l.resize(5);
    assert_eq!(l.cells.len(), 5);
    assert_eq!(l.cells[0].char, 'q');
    assert_eq!(l.cells[4].char, ' ');
    l.resize(1);
    assert_eq!(l.cells.len(), 1);
    l.clear();
    assert_eq!(l.cells[0], plain(' '));
    assert!(!l.wrapped);
}

#[test]
fn restore_after_any_moves() {
    let mut b = filled(3, &["abc", "def"]);
    b.move_cursor(2, 1);
    b.save_cursor();
    for (x, y) in [(0, 0), (1, 1), (9, 9), (0, 1)] {
        b.move_cursor(x, y);
    }
    b.restore_cursor();
    assert_eq!(b.cursor_position(), (2, 1));
    b.move_cursor(0, 0);
    b.restore_cursor();
    assert_eq!(b.cursor_position(), (0, 0));
    assert_eq!(row(&b, 0), "abc");
}

#[test]
fn main_screen_survives_any_calls_on_the_alternate_one() {
    let mut b = filled(3, &["abc", "def"]);
    b.move_cursor(1, 1);
    b.switch_to_alternate();
    b.set_cell(0, 0, plain('z'));
    b.scroll_up(1);
    b.insert_lines(0, 1);
    b.delete_lines(0, 1);
    b.delete_chars(0, 0, 1);
    b.erase_chars(0, 1, 2);
    b.clear();
    b.save_cursor();
    b.switch_to_alternate();
    b.move_cursor(2, 0);
    b.switch_to_main();
    assert_eq!(row(&b, 0), "abc");
    assert_eq!(row(&b, 1), "def");
    assert_eq!(b.cursor_position(), (1, 1));
}
