use creeper_term::terminal::buffer::{Buffer, CellAttributes, Color};
use creeper_term::terminal::parser::{apply_sgr, title_of_osc, Parser};

fn row(b: &Buffer, y: usize) -> String {
    b.lines()[y].cells.iter().map(|c| c.char).collect()
}

fn run(w: usize, h: usize, data: &[u8]) -> (Parser, Buffer) {
    let mut b = Buffer::new(w, h, 0);
    let mut p = Parser::new();
    p.parse(&mut b, data);
    (p, b)
}

#[test]
fn new_parser_has_no_title_and_plain_attributes() {
    let p = Parser::new();
    assert_eq!(p.title(), "");
    assert_eq!(*p.current_attrs(), CellAttributes::default());
}

#[test]
fn printable_text_is_written_at_the_cursor() {
    let (_, b) = run(10, 3, b"Hello");
    assert_eq!(row(&b, 0), "Hello     ");
    assert_eq!(b.cursor_position(), (5, 0));
}

#[test]
fn carriage_return_and_line_feed() {
    let (_, b) = run(4, 3, b"ab\r\ncd");
    assert_eq!(row(&b, 0), "ab  ");
    assert_eq!(row(&b, 1), "cd  ");
    assert_eq!(b.cursor_position(), (2, 1));
}

#[test]
fn text_wraps_at_the_right_edge() {
    let (_, b) = run(4, 2, b"abcde");
    assert_eq!(row(&b, 0), "abcd");
    assert_eq!(row(&b, 1), "e   ");
    assert_eq!(b.cursor_position(), (1, 1));
}

#[test]
fn wrapping_on_the_last_row_overwrites_it() {
    let (_, b) = run(4, 2, b"abcdefghij");
    assert_eq!(row(&b, 0), "abcd");
    assert_eq!(row(&b, 1), "ijgh");
    assert_eq!(b.cursor_position(), (2, 1));
}

#[test]
fn line_feed_on_the_last_row_scrolls() {
    let (_, b) = run(4, 2, b"a\nb\nc");
    assert_eq!(b.lines().len(), 2);
    assert_eq!(row(&b, 0), " b  ");
    assert_eq!(row(&b, 1), "  c ");
    assert_eq!(b.cursor_position(), (3, 1));
}

#[test]
fn cursor_movement_sequences() {
    let mut b = Buffer::new(10, 5, 0);
    let mut p = Parser::new();
    let steps: &[(&[u8], (usize, usize))] = &[
        (b"\x1b[3;4H", (3, 2)),
        (b"\x1b[2A", (3, 0)),
        (b"\x1b[B", (3, 1)),
        (b"\x1b[5C", (8, 1)),
        (b"\x1b[20C", (9, 1)),
        (b"\x1b[3D", (6, 1)),
        (b"\x1b[H", (0, 0)),
        (b"\x1b[4G", (3, 0)),
        (b"\x1b[3d", (3, 2)),
        (b"\x1b[E", (0, 3)),
        (b"\x1b[2F", (0, 1)),
        (b"\x1b[99;99f", (9, 4)),
        (b"\x1b[9A", (9, 0)),
    ];
    for (data, pos) in steps {
        p.parse(&mut b, data);
        assert_eq!(b.cursor_position(), *pos);
    }
}

#[test]
fn sgr_sets_and_resets_attributes() {
    let (p, b) = run(10, 2, b"\x1b[1;31mX\x1b[0mY");
    let x = b.get_cell(0, 0).unwrap();
    assert_eq!(x.char, 'X');
    assert!(x.attributes.bold);
    assert_eq!(x.attributes.foreground, Some(Color::Red));
    let y = b.get_cell(1, 0).unwrap();
    assert_eq!(y.attributes, CellAttributes::default());
    assert_eq!(*p.current_attrs(), CellAttributes::default());
}

#[test]
fn sgr_flags_on_and_off() {
    let (p, _) = run(10, 2, b"\x1b[2;3;4;7;9m");
    let a = p.current_attrs();
    assert!(a.dim && a.italic && a.underline && a.reverse && a.strikethrough);
    assert!(!a.bold);
    let (p, _) = run(10, 2, b"\x1b[1;2;3;4;7;9m\x1b[22;23;24;27;29m");
    assert_eq!(*p.current_attrs(), CellAttributes::default());
}

#[test]
fn sgr_palette_and_true_colours() {
    let (p, _) = run(10, 2, b"\x1b[38;5;196m\x1b[48;2;10;20;30m");
    assert_eq!(p.current_attrs().foreground, Some(Color::Indexed(196)));
    assert_eq!(p.current_attrs().background, Some(Color::Rgb(10, 20, 30)));
    let (p, _) = run(10, 2, b"\x1b[48;5;17;38;2;1;2;3m");
    assert_eq!(p.current_attrs().background, Some(Color::Indexed(17)));
    assert_eq!(p.current_attrs().foreground, Some(Color::Rgb(1, 2, 3)));
}

#[test]
fn sgr_colour_components_are_truncated_to_a_byte() {
    let (p, _) = run(10, 2, b"\x1b[38;2;300;256;7m");
    assert_eq!(p.current_attrs().foreground, Some(Color::Rgb(44, 0, 7)));
}

#[test]
fn sgr_incomplete_extended_colour_is_ignored() {
    let (p, _) = run(10, 2, b"\x1b[31m\x1b[38;5m");
    assert_eq!(p.current_attrs().foreground, Some(Color::Red));
    let (p, _) = run(10, 2, b"\x1b[38;2;1;2m");
    assert_eq!(p.current_attrs().foreground, None);
}

#[test]
fn sgr_bright_and_default_colours() {
    let (p, _) = run(10, 2, b"\x1b[94;101m");
    assert_eq!(p.current_attrs().foreground, Some(Color::BrightBlue));
    assert_eq!(p.current_attrs().background, Some(Color::BrightRed));
    let (p, _) = run(10, 2, b"\x1b[94;101m\x1b[39;49m");
    assert_eq!(p.current_attrs().foreground, None);
    assert_eq!(p.current_attrs().background, None);
    let (p, _) = run(10, 2, b"\x1b[1;47m\x1b[m");
    assert_eq!(*p.current_attrs(), CellAttributes::default());
}

#[test]
fn osc_sets_the_title() {
    let (p, _) = run(10, 2, b"\x1b]0;My Title\x07");
    assert_eq!(p.title(), "My Title");
    let (p, _) = run(10, 2, b"\x1b]2;other\x9c");
    assert_eq!(p.title(), "other");
    let (p, _) = run(10, 2, b"\x1b]plain\x07");
    assert_eq!(p.title(), "plain");
}

#[test]
fn osc_leading_semicolon_is_dropped() {
    let (p, _) = run(10, 2, b"\x1b];semi\x07");
    assert_eq!(p.title(), "semi");
}

#[test]
fn osc_other_parameters_leave_the_title() {
    let (p, _) = run(10, 2, b"\x1b]0;keep\x07\x1b]4;1;rgb:00/00/00\x07\x1b]abc;def\x07\x1b]11;x\x07");
    assert_eq!(p.title(), "keep");
}

#[test]
fn osc_title_with_invalid_utf8_gets_replacement_characters() {
    let (p, _) = run(10, 2, b"\x1b]0;a\xffb\x07");
    assert_eq!(p.title(), "a\u{FFFD}b");
    let (p, _) = run(10, 2, b"\x1b]0;caf\xc3\xa9\x07");
    assert_eq!(p.title(), "caf\u{e9}");
}

#[test]
fn erase_in_line() {
    let (_, b) = run(4, 3, b"abcdefghijkl\x1b[2;3H\x1b[K");
    assert_eq!(row(&b, 0), "abcd");
    assert_eq!(row(&b, 1), "ef  ");
    assert_eq!(row(&b, 2), "ijkl");
    let (_, b) = run(4, 3, b"abcdefghijkl\x1b[2;3H\x1b[1K");
    assert_eq!(row(&b, 1), "   h");
    let (_, b) = run(4, 3, b"abcdefghijkl\x1b[2;3H\x1b[2K");
    assert_eq!(row(&b, 1), "    ");
    assert_eq!(row(&b, 2), "ijkl");
}

#[test]
fn erase_in_line_uses_current_attributes() {
    let (_, b) = run(4, 1, b"abcd\x1b[1;2H\x1b[41m\x1b[K");
    assert_eq!(row(&b, 0), "a   ");
    assert_eq!(b.get_cell(1, 0).unwrap().attributes.background, Some(Color::Red));
    assert_eq!(b.get_cell(0, 0).unwrap().attributes.background, None);
}

#[test]
fn erase_in_display() {
    let (_, b) = run(4, 3, b"abcdefghijkl\x1b[2;3H\x1b[J");
    assert_eq!(row(&b, 0), "abcd");
    assert_eq!(row(&b, 1), "ef  ");
    assert_eq!(row(&b, 2), "    ");
    let (_, b) = run(4, 3, b"abcdefghijkl\x1b[2;3H\x1b[1J");
    assert_eq!(row(&b, 0), "    ");
    assert_eq!(row(&b, 1), "   h");
    assert_eq!(row(&b, 2), "ijkl");
    let (_, b) = run(4, 3, b"abcdefghijkl\x1b[2;3H\x1b[2J");
    assert!((0..3).all(|y| row(&b, y) == "    "));
    assert_eq!(b.cursor_position(), (0, 0));
}

#[test]
fn save_and_restore_cursor() {
    let (_, b) = run(10, 5, b"\x1b[3;4H\x1b7\x1b[H\x1b8");
    assert_eq!(b.cursor_position(), (3, 2));
    let (_, b) = run(10, 5, b"\x1b[2;2H\x1b[s\x1b[5;5H\x1b[u");
    assert_eq!(b.cursor_position(), (1, 1));
}

#[test]
fn scrolling_region() {
    let (_, b) = run(1, 4, b"\x1b[1;1HA\x1b[2;1HB\x1b[3;1HC\x1b[4;1HD\x1b[2;3r");
    assert_eq!(b.cursor_position(), (0, 1));
    let mut b = b;
    let mut p = Parser::new();
    p.parse(&mut b, b"\x1b[2;3r\x1b[3;1H\n");
    let rows: Vec<String> = (0..4).map(|y| row(&b, y)).collect();
    assert_eq!(rows, vec!["A", "C", " ", "D"]);
}

#[test]
fn invalid_scrolling_region_resets_to_the_screen() {
    let (_, b) = run(3, 4, b"\x1b[3;3H\x1b[3;2r");
    assert_eq!(b.cursor_position(), (0, 0));
    let (_, b) = run(3, 4, b"\x1b[3;3H\x1b[r");
    assert_eq!(b.cursor_position(), (0, 0));
}

#[test]
fn tab_and_backspace() {
    let (_, b) = run(80, 2, b"\tX");
    assert_eq!(b.get_cell(8, 0).unwrap().char, 'X');
    let (_, b) = run(10, 2, b"\t\tX");
    assert_eq!(b.get_cell(9, 0).unwrap().char, 'X');
    assert_eq!(b.cursor_position(), (0, 1));
    let (_, b) = run(10, 2, b"ab\x08c\x08\x08\x08");
    assert_eq!(row(&b, 0), "ac        ");
    assert_eq!(b.cursor_position(), (0, 0));
}

#[test]
fn index_next_line_and_reverse_index() {
    let (_, b) = run(5, 3, b"ab\x1bDc");
    assert_eq!(row(&b, 1), "  c  ");
    let (_, b) = run(5, 3, b"ab\x1bEc");
    assert_eq!(row(&b, 1), "c    ");
    let (_, b) = run(3, 3, b"top\x1b[H\x1bM");
    assert_eq!(row(&b, 0), "   ");
    assert_eq!(row(&b, 1), "top");
    let (_, b) = run(3, 3, b"\x1b[3;2H\x1bM");
    assert_eq!(b.cursor_position(), (1, 1));
}

#[test]
fn private_modes_and_unknown_sequences_change_nothing() {
    let (p, b) = run(4, 2, b"\x1b[?1049h\x1b[?25l\x1b[ q\x1b[5n\x1bcX");
    assert_eq!(row(&b, 0), "X   ");
    assert_eq!(b.cursor_position(), (1, 0));
    assert_eq!(*p.current_attrs(), CellAttributes::default());
}

#[test]
fn device_control_string_is_skipped() {
    let (_, b) = run(4, 2, b"\x1bPqwerty\x1b\\Z");
    assert_eq!(row(&b, 0), "Z   ");
}

#[test]
fn insert_and_delete_lines_at_the_cursor() {
    let (_, b) = run(2, 3, b"a\r\nb\r\nc\x1b[2;1H\x1b[L");
    let rows: Vec<String> = (0..b.lines().len()).map(|y| row(&b, y)).collect();
    assert_eq!(rows, vec!["a ", "  ", "b "]);
    let (_, b) = run(2, 3, b"a\r\nb\r\nc\x1b[1;1H\x1b[2M");
    let rows: Vec<String> = (0..b.lines().len()).map(|y| row(&b, y)).collect();
    assert_eq!(rows, vec!["c ", "  ", "  "]);
}

#[test]
fn delete_and_erase_characters() {
    let (_, b) = run(5, 1, b"abcde\x1b[1;2H\x1b[2P");
    assert_eq!(row(&b, 0), "ade  ");
    let (_, b) = run(5, 1, b"abcde\x1b[1;2H\x1b[2X");
    assert_eq!(row(&b, 0), "a  de");
}

#[test]
fn scroll_up_and_down_sequences() {
    let (_, b) = run(2, 3, b"a\r\nb\r\nc\x1b[S");
    let rows: Vec<String> = (0..3).map(|y| row(&b, y)).collect();
    assert_eq!(rows, vec!["b ", "c ", "  "]);
    let (_, b) = run(2, 3, b"a\r\nb\r\nc\x1b[2T");
    let rows: Vec<String> = (0..3).map(|y| row(&b, y)).collect();
    assert_eq!(rows, vec!["  ", "  ", "a "]);
}

#[test]
fn output_split_anywhere_parses_the_same() {
    let whole: &[u8] = b"\x1b[3;4H\x1b[1;38;5;200mhi\x1b]0;t\x07\r\nok";
    let (p1, b1) = run(8, 4, whole);
    for cut in 0..=whole.len() {
        let mut b2 = Buffer::new(8, 4, 0);
        let mut p2 = Parser::new();
        p2.parse(&mut b2, &whole[..cut]);
        p2.parse(&mut b2, &whole[cut..]);
        assert_eq!(p2.title(), p1.title());
        assert_eq!(*p2.current_attrs(), *p1.current_attrs());
        assert_eq!(b2.cursor_position(), b1.cursor_position());
        for y in 0..4 {
            for x in 0..8 {
                assert_eq!(b2.get_cell(x, y), b1.get_cell(x, y));
            }
        }
    }
}

#[test]
fn parse_prefix_stops_before_a_byte_that_cannot_be_applied() {
    let mut b = Buffer::new(80, 24, 0);
    let mut p = Parser::new();
    let data: &[u8] = b"ab\x1b[99999999999m";
    let n = p.parse_prefix(&mut b, data);
    assert_eq!(n, 13);
    assert_eq!(b.cursor_position(), (2, 0));
    assert!(!p.accepts(&b, b'9'));
    assert!(p.accepts(&b, b'm'));
}

#[test]
fn an_empty_first_parameter_is_its_default() {
    let (_, b) = run(80, 24, b"\x1b[;10H");
    assert_eq!(b.cursor_position(), (9, 0));
    let (_, b) = run(80, 24, b"\x1b[5;H");
    assert_eq!(b.cursor_position(), (0, 4));
    let (_, b) = run(80, 24, b"\x1b[3;4H\x1b[;;H");
    assert_eq!(b.cursor_position(), (0, 0));
    let (p, _) = run(80, 24, b"\x1b[1;;4m");
    // The empty parameter is 0, which resets the attributes before 4.
    assert!(!p.current_attrs().bold && p.current_attrs().underline);
}

#[test]
fn deleting_lines_keeps_the_screen_height() {
    let (_, b) = run(2, 3, b"a\r\nb\r\nc\x1b[2;1H\x1b[9M");
    let rows: Vec<String> = (0..b.lines().len()).map(|y| row(&b, y)).collect();
    assert_eq!(rows, vec!["a ", "  ", "  "]);
}

#[test]
fn parse_prefix_takes_everything_on_ordinary_output() {
    let mut b = Buffer::new(10, 3, 0);
    let mut p = Parser::new();
    let data: &[u8] = b"ls -l\r\n\x1b[32mok\x1b[0m";
    assert_eq!(p.parse_prefix(&mut b, data), data.len());
    assert_eq!(row(&b, 0), "ls -l     ");
    assert_eq!(row(&b, 1), "ok        ");
}

#[test]
fn parameters_up_to_the_largest_u32_are_read() {
    let mut b = Buffer::new(10, 3, 0);
    let mut p = Parser::new();
    let data: &[u8] = b"\x1b[4294967295;1m";
    assert_eq!(p.parse_prefix(&mut b, data), data.len());
    assert!(p.current_attrs().bold);
}

#[test]
fn a_parameter_past_the_largest_u32_is_not_applied() {
    let mut b = Buffer::new(10, 3, 0);
    let mut p = Parser::new();
    let data: &[u8] = b"\x1b[4294967296m";
    assert_eq!(p.parse_prefix(&mut b, data), 11);
    assert!(!p.accepts(&b, b'6'));
    assert!(p.accepts(&b, b'5'));
}

#[test]
fn an_omitted_zero_or_one_count_acts_alike() {
    for f in [b'A', b'B', b'C', b'D', b'E', b'F', b'G', b'L', b'M', b'P', b'S', b'T', b'X'] {
        let mut results = Vec::new();
        for count in [&b""[..], &b"0"[..], &b"1"[..]] {
            let mut data = b"abc\r\ndef\r\nghi\x1b[2;2H\x1b[".to_vec();
            data.extend_from_slice(count);
            data.push(f);
            let (_, b) = run(5, 4, &data);
            let rows: Vec<String> = (0..b.lines().len()).map(|y| row(&b, y)).collect();
            results.push((rows, b.cursor_position()));
        }
        assert_eq!(results[0], results[1]);
        assert_eq!(results[1], results[2]);
    }
}

#[test]
fn the_same_attributes_twice_are_as_once() {
    let seqs: [&[u8]; 4] = [b"1;31;48;5;9", b"0;4;22;39", b"38;2;1;2;3;7;27", b""];
    for s in seqs {
        let mut once = b"\x1b[3;45m\x1b[".to_vec();
        once.extend_from_slice(s);
        once.push(b'm');
        let mut twice = once.clone();
        twice.extend_from_slice(b"\x1b[");
        twice.extend_from_slice(s);
        twice.push(b'm');
        let (p1, _) = run(4, 2, &once);
        let (p2, _) = run(4, 2, &twice);
        assert_eq!(*p1.current_attrs(), *p2.current_attrs());
    }
}

#[test]
fn the_cursor_stays_inside_whatever_the_input() {
    let data: &[u8] = b"\x1b[99;99H\x1b7\x1b[500C\x1b[500B\n\n\t\t\t\t\x1b[50E\x1b8\x1b[10T\x1b[3;2r\x1bM\x1bD\x1b[9Lxyz";
    for cut in 0..=data.len() {
        let (_, b) = run(6, 3, &data[..cut]);
        let (x, y) = b.cursor_position();
        assert!(x < 6 && y < 3);
        assert_eq!(b.viewport_width(), 6);
        assert_eq!(b.viewport_height(), 3);
    }
}

#[test]
fn title_of_an_operating_system_command() {
    use_title_cases();
}

fn use_title_cases() {
    assert_eq!(title_of_osc("0;hello").as_deref(), Some("hello"));
    assert_eq!(title_of_osc("2;a;b").as_deref(), Some("a;b"));
    assert_eq!(title_of_osc("plain").as_deref(), Some("plain"));
    assert_eq!(title_of_osc("4;x"), None);
    assert_eq!(title_of_osc("abc;x"), None);
    assert_eq!(title_of_osc("+1;y").as_deref(), Some("y"));
}

#[test]
fn attributes_applied_twice_are_as_once() {
    let start = CellAttributes { italic: true, background: Some(Color::Blue), ..CellAttributes::default() };
    for ps in [vec![1, 31], vec![0, 4], vec![38, 5, 9, 22], vec![], vec![48, 2, 1, 2]] {
        let once = apply_sgr(start, &ps);
        assert_eq!(apply_sgr(once, &ps), once);
    }
}

#[test]
fn an_omitted_count_runs_as_one_directly() {
    for f in [b'A', b'C', b'L', b'M', b'P', b'X'] {
        let mut screens = Vec::new();
        for prefix in [&b"\x1b["[..], &b"\x1b[0"[..], &b"\x1b[1"[..]] {
            let mut b = Buffer::new(5, 4, 0);
            let mut p = Parser::new();
            p.parse(&mut b, b"abc\r\ndef\x1b[2;3H");
            p.parse(&mut b, prefix);
            p.execute_csi(&mut b, f);
            let rows: Vec<String> = (0..b.lines().len()).map(|y| row(&b, y)).collect();
            screens.push((rows, b.cursor_position()));
        }
        assert_eq!(screens[0], screens[1]);
        assert_eq!(screens[1], screens[2]);
    }
}
