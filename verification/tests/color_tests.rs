use creeper_term::terminal::buffer::{checked_parse_color, parse_color, Color};
use creeper_term::terminal::color::{hex_slices_would_panic, parse_lowercase_color};

#[test]
fn named_colours_in_any_case() {
    assert_eq!(parse_color("red"), Some(Color::Red));
    assert_eq!(parse_color("RED"), Some(Color::Red));
    assert_eq!(parse_color("Black"), Some(Color::Black));
    assert_eq!(parse_color("green"), Some(Color::Green));
    assert_eq!(parse_color("yellow"), Some(Color::Yellow));
    assert_eq!(parse_color("blue"), Some(Color::Blue));
    assert_eq!(parse_color("magenta"), Some(Color::Magenta));
    assert_eq!(parse_color("CYAN"), Some(Color::Cyan));
    assert_eq!(parse_color("white"), Some(Color::White));
}

#[test]
fn bright_colours_and_their_other_names() {
    assert_eq!(parse_color("bright-black"), Some(Color::BrightBlack));
    assert_eq!(parse_color("brightblack"), Some(Color::BrightBlack));
    assert_eq!(parse_color("Gray"), Some(Color::BrightBlack));
    assert_eq!(parse_color("GREY"), Some(Color::BrightBlack));
    assert_eq!(parse_color("bright-red"), Some(Color::BrightRed));
    assert_eq!(parse_color("BrightRed"), Some(Color::BrightRed));
    assert_eq!(parse_color("bright-green"), Some(Color::BrightGreen));
    assert_eq!(parse_color("brightyellow"), Some(Color::BrightYellow));
    assert_eq!(parse_color("bright-blue"), Some(Color::BrightBlue));
    assert_eq!(parse_color("brightmagenta"), Some(Color::BrightMagenta));
    assert_eq!(parse_color("bright-cyan"), Some(Color::BrightCyan));
    assert_eq!(parse_color("BRIGHT-WHITE"), Some(Color::BrightWhite));
}

#[test]
fn hex_colours() {
    assert_eq!(parse_color("#FF8000"), Some(Color::Rgb(255, 128, 0)));
    assert_eq!(parse_color("#1e1e1e"), Some(Color::Rgb(30, 30, 30)));
    assert_eq!(parse_color("#000000"), Some(Color::Rgb(0, 0, 0)));
}

#[test]
fn rejected_colours() {
    assert_eq!(parse_color(""), None);
    assert_eq!(parse_color("purple"), None);
    assert_eq!(parse_color("bright red"), None);
    assert_eq!(parse_color("#ff80"), None);
    assert_eq!(parse_color("#ff80000"), None);
    assert_eq!(parse_color("#gg0000"), None);
    assert_eq!(parse_color("ff8000#"), None);
    // A sign is accepted by `from_str_radix`, so "+f" is a valid byte.
    assert_eq!(parse_color("#+f0000"), Some(Color::Rgb(15, 0, 0)));
    assert_eq!(parse_color("#-10000"), None);
    // Seven bytes whose first slice is a whole non-hex character.
    assert_eq!(parse_color("#\u{e9}0000"), None);
}

#[test]
fn lowercase_names_only_match_lowercase() {
    assert_eq!(parse_lowercase_color("red"), Some(Color::Red));
    assert_eq!(parse_lowercase_color("RED"), None);
    assert_eq!(parse_lowercase_color("#ABCDEF"), Some(Color::Rgb(0xab, 0xcd, 0xef)));
    assert_eq!(parse_lowercase_color("#abcdef"), Some(Color::Rgb(0xab, 0xcd, 0xef)));
}

#[test]
fn slices_that_would_split_a_character() {
    assert!(hex_slices_would_panic("#a\u{e9}000"));
    assert!(!hex_slices_would_panic("#\u{e9}0000"));
    assert!(!hex_slices_would_panic("#abcdef"));
    assert!(!hex_slices_would_panic("red"));
    assert_eq!(checked_parse_color("#a\u{e9}000"), None);
    assert_eq!(checked_parse_color("Red"), Some(Some(Color::Red)));
    assert_eq!(checked_parse_color("nothing"), Some(None));
    assert_eq!(checked_parse_color("#0A0B0C"), Some(Some(Color::Rgb(10, 11, 12))));
}
