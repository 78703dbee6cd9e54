//! Colours of cells and their names in configuration files.
use vstd::prelude::*;
use vstd::utf8::*;

use crate::text::str_eq;

verus! {

/// A terminal colour: one of the sixteen named colours, a 24-bit colour or an
/// entry of the 256-colour palette.
#[derive(Debug, Clone, Copy, PartialEq, Eq, Structural)]
pub enum Color {
    Black,
    Red,
    Green,
    Yellow,
    Blue,
    Magenta,
    Cyan,
    White,
    BrightBlack,
    BrightRed,
    BrightGreen,
    BrightYellow,
    BrightBlue,
    BrightMagenta,
    BrightCyan,
    BrightWhite,
    Rgb(u8, u8, u8),
    Indexed(u8),
}

/// What `str::to_lowercase` returns for a string.
pub uninterp spec fn spec_to_lowercase(s: Seq<char>) -> Seq<char>;

/// ASCII lower-casing of one character.
pub open spec fn ascii_lower(c: char) -> char {
    if 'A' <= c && c <= 'Z' {
        ((c as u32) + 32) as char
    } else {
        c
    }
}

/// Calls `str::to_lowercase`. The result is named by `spec_to_lowercase`; of a
/// string made of ASCII characters it is stated that each upper-case letter is
/// lowered and every other character kept. Of other strings (where Unicode may
/// change lengths and map non-ASCII characters to ASCII ones) nothing more is said.
#[verifier::external_body]
fn str_to_lowercase(s: &str) -> (r: String)
    ensures
        r@ == spec_to_lowercase(s@),
        is_ascii_chars(s@) ==> r@ == s@.map_values(|c: char| ascii_lower(c)),
{
    s.to_lowercase()
}

/// The value of one hexadecimal digit, as `char::to_digit(16)` gives it.
pub open spec fn hex_digit(b: u8) -> Option<u8> {
    if 48 <= b && b <= 57 {
        Some((b - 48) as u8)
    } else if 97 <= b && b <= 102 {
        Some((b - 87) as u8)
    } else if 65 <= b && b <= 70 {
        Some((b - 55) as u8)
    } else {
        None
    }
}

/// What `u8::from_str_radix(src, 16)` gives for the two-byte string `src = [a, b]`:
/// an optional `+` sign followed by one digit, or two digits.
pub open spec fn hex_pair(a: u8, b: u8) -> Option<u8> {
    if a == 43 {
        hex_digit(b)
    } else {
        match (hex_digit(a), hex_digit(b)) {
            (Some(x), Some(y)) => Some((x * 16 + y) as u8),
            _ => None,
        }
    }
}

/// `s` (already lower-cased) has the shape `#` and six more bytes, the case that
/// is read as `#rrggbb`.
pub open spec fn is_hex_form(bytes: Seq<u8>) -> bool {
    bytes.len() == 7 && bytes[0] == 35
}

/// Reading `#rrggbb` slices the string at bytes 1..3, 3..5 and 5..7; a slice whose
/// end falls inside a multi-byte character cannot be taken.
pub open spec fn hex_slices_panic(bytes: Seq<u8>) -> bool {
    &&& is_hex_form(bytes)
    &&& (!is_char_boundary(bytes, 3) || (hex_pair(bytes[1], bytes[2]) is Some && !is_char_boundary(
        bytes,
        5,
    )))
}

/// The colour that a lower-cased name denotes.
pub open spec fn color_from_lowercase(t: Seq<char>) -> Option<Color> {
    let bytes = encode_utf8(t);
    if t == "black"@ {
        Some(Color::Black)
    } else if t == "red"@ {
        Some(Color::Red)
    } else if t == "green"@ {
        Some(Color::Green)
    } else if t == "yellow"@ {
        Some(Color::Yellow)
    } else if t == "blue"@ {
        Some(Color::Blue)
    } else if t == "magenta"@ {
        Some(Color::Magenta)
    } else if t == "cyan"@ {
        Some(Color::Cyan)
    } else if t == "white"@ {
        Some(Color::White)
    } else if t == "bright-black"@ || t == "brightblack"@ || t == "gray"@ || t == "grey"@ {
        Some(Color::BrightBlack)
    } else if t == "bright-red"@ || t == "brightred"@ {
        Some(Color::BrightRed)
    } else if t == "bright-green"@ || t == "brightgreen"@ {
        Some(Color::BrightGreen)
    } else if t == "bright-yellow"@ || t == "brightyellow"@ {
        Some(Color::BrightYellow)
    } else if t == "bright-blue"@ || t == "brightblue"@ {
        Some(Color::BrightBlue)
    } else if t == "bright-magenta"@ || t == "brightmagenta"@ {
        Some(Color::BrightMagenta)
    } else if t == "bright-cyan"@ || t == "brightcyan"@ {
        Some(Color::BrightCyan)
    } else if t == "bright-white"@ || t == "brightwhite"@ {
        Some(Color::BrightWhite)
    } else if is_hex_form(bytes) {
        match (hex_pair(bytes[1], bytes[2]), hex_pair(bytes[3], bytes[4]), hex_pair(bytes[5], bytes[6])) {
            (Some(r), Some(g), Some(b)) => Some(Color::Rgb(r, g, b)),
            _ => None,
        }
    } else {
        None
    }
}

fn hex_digit_of(b: u8) -> (r: Option<u8>)
    ensures
        r == hex_digit(b),
{
    if 48 <= b && b <= 57 {
        Some(b - 48)
    } else if 97 <= b && b <= 102 {
        Some(b - 87)
    } else if 65 <= b && b <= 70 {
        Some(b - 55)
    } else {
        None
    }
}

fn hex_pair_of(a: u8, b: u8) -> (r: Option<u8>)
    ensures
        r == hex_pair(a, b),
{
    if a == 43 {
        hex_digit_of(b)
    } else {
        match (hex_digit_of(a), hex_digit_of(b)) {
            (Some(x), Some(y)) => Some(x * 16 + y),
            _ => None,
        }
    }
}

/// Whether reading the `#rrggbb` form of `t` would cut a character in two.
pub fn hex_slices_would_panic(t: &str) -> (r: bool)
    ensures
        r == hex_slices_panic(encode_utf8(t@)),
{
    let bytes = t.as_bytes();
    if bytes.len() == 7 && bytes[0] == 35 {
        if !t.is_char_boundary(3) {
            true
        } else {
            hex_pair_of(bytes[1], bytes[2]).is_some() && !t.is_char_boundary(5)
        }
    } else {
        false
    }
}

/// The colour named by a string that is already in lower case: one of the
/// sixteen names (with `gray`/`grey` and the forms without a hyphen), or
/// `#rrggbb` in hexadecimal.
pub fn parse_lowercase_color(t: &str) -> (r: Option<Color>)
    requires
        !hex_slices_panic(encode_utf8(t@)),
    ensures
        r == color_from_lowercase(t@),
{
    if str_eq(t, "black") {
        Some(Color::Black)
    } else if str_eq(t, "red") {
        Some(Color::Red)
    } else if str_eq(t, "green") {
        Some(Color::Green)
    } else if str_eq(t, "yellow") {
        Some(Color::Yellow)
    } else if str_eq(t, "blue") {
        Some(Color::Blue)
    } else if str_eq(t, "magenta") {
        Some(Color::Magenta)
    } else if str_eq(t, "cyan") {
        Some(Color::Cyan)
    } else if str_eq(t, "white") {
        Some(Color::White)
    } else if str_eq(t, "bright-black") || str_eq(t, "brightblack") || str_eq(t, "gray") || str_eq(
        t,
        "grey",
    ) {
        Some(Color::BrightBlack)
    } else if str_eq(t, "bright-red") || str_eq(t, "brightred") {
        Some(Color::BrightRed)
    } else if str_eq(t, "bright-green") || str_eq(t, "brightgreen") {
        Some(Color::BrightGreen)
    } else if str_eq(t, "bright-yellow") || str_eq(t, "brightyellow") {
        Some(Color::BrightYellow)
    } else if str_eq(t, "bright-blue") || str_eq(t, "brightblue") {
        Some(Color::BrightBlue)
    } else if str_eq(t, "bright-magenta") || str_eq(t, "brightmagenta") {
        Some(Color::BrightMagenta)
    } else if str_eq(t, "bright-cyan") || str_eq(t, "brightcyan") {
        Some(Color::BrightCyan)
    } else if str_eq(t, "bright-white") || str_eq(t, "brightwhite") {
        Some(Color::BrightWhite)
    } else {
        let bytes = t.as_bytes();
        if bytes.len() == 7 && bytes[0] == 35 {
            let r = match hex_pair_of(bytes[1], bytes[2]) {
                Some(v) => v,
                None => return None,
            };
            let g = match hex_pair_of(bytes[3], bytes[4]) {
                Some(v) => v,
                None => return None,
            };
            let b = match hex_pair_of(bytes[5], bytes[6]) {
                Some(v) => v,
                None => return None,
            };
            Some(Color::Rgb(r, g, b))
        } else {
            None
        }
    }
}

/// The text `s` with each ASCII upper-case letter lowered.
pub open spec fn ascii_lowered(s: Seq<char>) -> Seq<char> {
    s.map_values(|c: char| ascii_lower(c))
}

/// Lowering an ASCII text keeps it ASCII, and then reading `#rrggbb` cannot cut
/// a character in two.
pub proof fn lemma_ascii_lowered(s: Seq<char>)
    requires
        is_ascii_chars(s),
    ensures
        is_ascii_chars(ascii_lowered(s)),
        !hex_slices_panic(encode_utf8(ascii_lowered(s))),
{
    broadcast use is_ascii_chars_encode_utf8, encode_utf8_valid_utf8,
        is_char_boundary_iff_not_is_continuation_byte, is_char_boundary_start_end_of_seq;

    let t = ascii_lowered(s);
    assert forall|i: int| 0 <= i < t.len() implies '\0' <= #[trigger] t[i] <= '\u{7f}' by {
        assert(t[i] == ascii_lower(s[i]));
        assert('\0' <= s[i] <= '\u{7f}');
    }
    let b = encode_utf8(t);
    if b.len() == 7 {
        assert(is_ascii_chars(t));
        assert(t[3] as u8 == b[3]);
        assert(t[5] as u8 == b[5]);
        assert((t[3] as u32) < 128 && (t[5] as u32) < 128);
        assert(b[3] < 128) by {
            let c = t[3] as u32;
            assert(c < 128 ==> (c as u8) < 128) by (bit_vector);
        }
        assert(b[5] < 128) by {
            let c = t[5] as u32;
            assert(c < 128 ==> (c as u8) < 128) by (bit_vector);
        }
        encode_utf8_valid_utf8(t);
        is_char_boundary_iff_not_is_continuation_byte(b, 3);
        is_char_boundary_iff_not_is_continuation_byte(b, 5);
        assert(!is_continuation_byte(b[3]) && !is_continuation_byte(b[5]));
    }
}

/// The colour that a configuration string names, ignoring case (see
/// `parse_lowercase_color`). Defined where reading `#rrggbb` cuts no character
/// of the lower-cased string in two. For ASCII text, lower-casing lowers the
/// letters `A` to `Z` and keeps every other character.
pub fn parse_color(s: &str) -> (r: Option<Color>)
    requires
        !hex_slices_panic(encode_utf8(spec_to_lowercase(s@))),
    ensures
        r == color_from_lowercase(spec_to_lowercase(s@)),
        is_ascii_chars(s@) ==> r == color_from_lowercase(ascii_lowered(s@)),
{
    let lower = str_to_lowercase(s);
    parse_lowercase_color(lower.as_str())
}

/// `parse_color` for every string: `None` where reading `#rrggbb` would cut a
/// character of the lower-cased string in two, else `Some` of what
/// `parse_color` gives.
pub fn checked_parse_color(s: &str) -> (r: Option<Option<Color>>)
    ensures
        is_ascii_chars(s@) ==> r == Some(color_from_lowercase(ascii_lowered(s@))),
        r == (if hex_slices_panic(encode_utf8(spec_to_lowercase(s@))) {
            None
        } else {
            Some(color_from_lowercase(spec_to_lowercase(s@)))
        }),
{
    let lower = str_to_lowercase(s);
    proof {
        if is_ascii_chars(s@) {
            lemma_ascii_lowered(s@);
            assert(lower@ == ascii_lowered(s@));
        }
    }
    if hex_slices_would_panic(lower.as_str()) {
        None
    } else {
        Some(parse_color(s))
    }
}

/// The value of a hexadecimal digit of either case.
pub open spec fn hex_char(c: char) -> Option<u8> {
    if '0' <= c <= '9' {
        Some((c as u32 - 48) as u8)
    } else if 'a' <= c <= 'f' {
        Some((c as u32 - 87) as u8)
    } else if 'A' <= c <= 'F' {
        Some((c as u32 - 55) as u8)
    } else {
        None
    }
}

/// The byte that two hexadecimal digits spell.
pub open spec fn hex_byte(hi: char, lo: char) -> u8 {
    (hex_char(hi).unwrap() * 16 + hex_char(lo).unwrap()) as u8
}

/// The eight standard colours in the order that SGR numbers them.
pub open spec fn standard_colours() -> Seq<Color> {
    seq![
        Color::Black,
        Color::Red,
        Color::Green,
        Color::Yellow,
        Color::Blue,
        Color::Magenta,
        Color::Cyan,
        Color::White,
    ]
}

/// Their bright versions, in the same order.
pub open spec fn bright_colours() -> Seq<Color> {
    seq![
        Color::BrightBlack,
        Color::BrightRed,
        Color::BrightGreen,
        Color::BrightYellow,
        Color::BrightBlue,
        Color::BrightMagenta,
        Color::BrightCyan,
        Color::BrightWhite,
    ]
}

/// The names of the eight standard colours, in the same order.
pub open spec fn standard_names() -> Seq<Seq<char>> {
    seq!["black"@, "red"@, "green"@, "yellow"@, "blue"@, "magenta"@, "cyan"@, "white"@]
}

/// Each standard colour is named by its name, and its bright version both by
/// `bright-` and by `bright` followed by that name.
pub proof fn law_colour_names(k: int)
    requires
        0 <= k < 8,
    ensures
        color_from_lowercase(standard_names()[k]) == Some(standard_colours()[k]),
        color_from_lowercase("bright-"@ + standard_names()[k]) == Some(bright_colours()[k]),
        color_from_lowercase("bright"@ + standard_names()[k]) == Some(bright_colours()[k]),
{
    if k == 0 {
        lemma_black_names();
    } else if k == 1 {
        lemma_red_names();
    } else if k == 2 {
        lemma_green_names();
    } else if k == 3 {
        lemma_yellow_names();
    } else if k == 4 {
        lemma_blue_names();
    } else if k == 5 {
        lemma_magenta_names();
    } else if k == 6 {
        lemma_cyan_names();
    } else if k == 7 {
        lemma_white_names();
    }
}

proof fn lemma_black_names()
    ensures
        color_from_lowercase("black"@) == Some(Color::Black),
        color_from_lowercase("bright-"@ + "black"@) == Some(Color::BrightBlack),
        color_from_lowercase("bright"@ + "black"@) == Some(Color::BrightBlack),
{
    reveal_strlit("black");
    reveal_strlit("bright-black");
    reveal_strlit("brightblack");
    reveal_strlit("red");
    reveal_strlit("bright-red");
    reveal_strlit("brightred");
    reveal_strlit("green");
    reveal_strlit("bright-green");
    reveal_strlit("brightgreen");
    reveal_strlit("yellow");
    reveal_strlit("bright-yellow");
    reveal_strlit("brightyellow");
    reveal_strlit("blue");
    reveal_strlit("bright-blue");
    reveal_strlit("brightblue");
    reveal_strlit("magenta");
    reveal_strlit("bright-magenta");
    reveal_strlit("brightmagenta");
    reveal_strlit("cyan");
    reveal_strlit("bright-cyan");
    reveal_strlit("brightcyan");
    reveal_strlit("white");
    reveal_strlit("bright-white");
    reveal_strlit("brightwhite");
    reveal_strlit("gray");
    reveal_strlit("grey");
    reveal_strlit("bright-");
    reveal_strlit("bright");
    assert("bright-"@ + "black"@ =~= "bright-black"@);
    assert("bright"@ + "black"@ =~= "brightblack"@);
}

proof fn lemma_red_names()
    ensures
        color_from_lowercase("red"@) == Some(Color::Red),
        color_from_lowercase("bright-"@ + "red"@) == Some(Color::BrightRed),
        color_from_lowercase("bright"@ + "red"@) == Some(Color::BrightRed),
{
    reveal_strlit("black");
    reveal_strlit("bright-black");
    reveal_strlit("brightblack");
    reveal_strlit("red");
    reveal_strlit("bright-red");
    reveal_strlit("brightred");
    reveal_strlit("green");
    reveal_strlit("bright-green");
    reveal_strlit("brightgreen");
    reveal_strlit("yellow");
    reveal_strlit("bright-yellow");
    reveal_strlit("brightyellow");
    reveal_strlit("blue");
    reveal_strlit("bright-blue");
    reveal_strlit("brightblue");
    reveal_strlit("magenta");
    reveal_strlit("bright-magenta");
    reveal_strlit("brightmagenta");
    reveal_strlit("cyan");
    reveal_strlit("bright-cyan");
    reveal_strlit("brightcyan");
    reveal_strlit("white");
    reveal_strlit("bright-white");
    reveal_strlit("brightwhite");
    reveal_strlit("gray");
    reveal_strlit("grey");
    reveal_strlit("bright-");
    reveal_strlit("bright");
    assert("bright-"@ + "red"@ =~= "bright-red"@);
    assert("bright"@ + "red"@ =~= "brightred"@);
}

proof fn lemma_green_names()
    ensures
        color_from_lowercase("green"@) == Some(Color::Green),
        color_from_lowercase("bright-"@ + "green"@) == Some(Color::BrightGreen),
        color_from_lowercase("bright"@ + "green"@) == Some(Color::BrightGreen),
{
    reveal_strlit("black");
    reveal_strlit("bright-black");
    reveal_strlit("brightblack");
    reveal_strlit("red");
    reveal_strlit("bright-red");
    reveal_strlit("brightred");
    reveal_strlit("green");
    reveal_strlit("bright-green");
    reveal_strlit("brightgreen");
    reveal_strlit("yellow");
    reveal_strlit("bright-yellow");
    reveal_strlit("brightyellow");
    reveal_strlit("blue");
    reveal_strlit("bright-blue");
    reveal_strlit("brightblue");
    reveal_strlit("magenta");
    reveal_strlit("bright-magenta");
    reveal_strlit("brightmagenta");
    reveal_strlit("cyan");
    reveal_strlit("bright-cyan");
    reveal_strlit("brightcyan");
    reveal_strlit("white");
    reveal_strlit("bright-white");
    reveal_strlit("brightwhite");
    reveal_strlit("gray");
    reveal_strlit("grey");
    reveal_strlit("bright-");
    reveal_strlit("bright");
    assert("bright-"@ + "green"@ =~= "bright-green"@);
    assert("bright"@ + "green"@ =~= "brightgreen"@);
    assert("green"@[0] != "black"@[0]);
    assert("bright-green"@[7] != "bright-black"@[7]);
    assert("brightgreen"@[6] != "brightblack"@[6]);
}

proof fn lemma_yellow_names()
    ensures
        color_from_lowercase("yellow"@) == Some(Color::Yellow),
        color_from_lowercase("bright-"@ + "yellow"@) == Some(Color::BrightYellow),
        color_from_lowercase("bright"@ + "yellow"@) == Some(Color::BrightYellow),
{
    reveal_strlit("black");
    reveal_strlit("bright-black");
    reveal_strlit("brightblack");
    reveal_strlit("red");
    reveal_strlit("bright-red");
    reveal_strlit("brightred");
    reveal_strlit("green");
    reveal_strlit("bright-green");
    reveal_strlit("brightgreen");
    reveal_strlit("yellow");
    reveal_strlit("bright-yellow");
    reveal_strlit("brightyellow");
    reveal_strlit("blue");
    reveal_strlit("bright-blue");
    reveal_strlit("brightblue");
    reveal_strlit("magenta");
    reveal_strlit("bright-magenta");
    reveal_strlit("brightmagenta");
    reveal_strlit("cyan");
    reveal_strlit("bright-cyan");
    reveal_strlit("brightcyan");
    reveal_strlit("white");
    reveal_strlit("bright-white");
    reveal_strlit("brightwhite");
    reveal_strlit("gray");
    reveal_strlit("grey");
    reveal_strlit("bright-");
    reveal_strlit("bright");
    assert("bright-"@ + "yellow"@ =~= "bright-yellow"@);
    assert("bright"@ + "yellow"@ =~= "brightyellow"@);
    assert("brightyellow"@[6] != "bright-black"@[6]);
    assert("brightyellow"@[6] != "bright-green"@[6]);
}

proof fn lemma_blue_names()
    ensures
        color_from_lowercase("blue"@) == Some(Color::Blue),
        color_from_lowercase("bright-"@ + "blue"@) == Some(Color::BrightBlue),
        color_from_lowercase("bright"@ + "blue"@) == Some(Color::BrightBlue),
{
    reveal_strlit("black");
    reveal_strlit("bright-black");
    reveal_strlit("brightblack");
    reveal_strlit("red");
    reveal_strlit("bright-red");
    reveal_strlit("brightred");
    reveal_strlit("green");
    reveal_strlit("bright-green");
    reveal_strlit("brightgreen");
    reveal_strlit("yellow");
    reveal_strlit("bright-yellow");
    reveal_strlit("brightyellow");
    reveal_strlit("blue");
    reveal_strlit("bright-blue");
    reveal_strlit("brightblue");
    reveal_strlit("magenta");
    reveal_strlit("bright-magenta");
    reveal_strlit("brightmagenta");
    reveal_strlit("cyan");
    reveal_strlit("bright-cyan");
    reveal_strlit("brightcyan");
    reveal_strlit("white");
    reveal_strlit("bright-white");
    reveal_strlit("brightwhite");
    reveal_strlit("gray");
    reveal_strlit("grey");
    reveal_strlit("bright-");
    reveal_strlit("bright");
    assert("bright-"@ + "blue"@ =~= "bright-blue"@);
    assert("bright"@ + "blue"@ =~= "brightblue"@);
    assert("bright-blue"@[6] != "brightblack"@[6]);
    assert("bright-blue"@[6] != "brightgreen"@[6]);
    assert("brightblue"@[6] != "bright-red"@[6]);
}

proof fn lemma_magenta_names()
    ensures
        color_from_lowercase("magenta"@) == Some(Color::Magenta),
        color_from_lowercase("bright-"@ + "magenta"@) == Some(Color::BrightMagenta),
        color_from_lowercase("bright"@ + "magenta"@) == Some(Color::BrightMagenta),
{
    reveal_strlit("black");
    reveal_strlit("bright-black");
    reveal_strlit("brightblack");
    reveal_strlit("red");
    reveal_strlit("bright-red");
    reveal_strlit("brightred");
    reveal_strlit("green");
    reveal_strlit("bright-green");
    reveal_strlit("brightgreen");
    reveal_strlit("yellow");
    reveal_strlit("bright-yellow");
    reveal_strlit("brightyellow");
    reveal_strlit("blue");
    reveal_strlit("bright-blue");
    reveal_strlit("brightblue");
    reveal_strlit("magenta");
    reveal_strlit("bright-magenta");
    reveal_strlit("brightmagenta");
    reveal_strlit("cyan");
    reveal_strlit("bright-cyan");
    reveal_strlit("brightcyan");
    reveal_strlit("white");
    reveal_strlit("bright-white");
    reveal_strlit("brightwhite");
    reveal_strlit("gray");
    reveal_strlit("grey");
    reveal_strlit("bright-");
    reveal_strlit("bright");
    assert("bright-"@ + "magenta"@ =~= "bright-magenta"@);
    assert("bright"@ + "magenta"@ =~= "brightmagenta"@);
    assert("brightmagenta"@[6] != "bright-yellow"@[6]);
}

proof fn lemma_cyan_names()
    ensures
        color_from_lowercase("cyan"@) == Some(Color::Cyan),
        color_from_lowercase("bright-"@ + "cyan"@) == Some(Color::BrightCyan),
        color_from_lowercase("bright"@ + "cyan"@) == Some(Color::BrightCyan),
{
    reveal_strlit("black");
    reveal_strlit("bright-black");
    reveal_strlit("brightblack");
    reveal_strlit("red");
    reveal_strlit("bright-red");
    reveal_strlit("brightred");
    reveal_strlit("green");
    reveal_strlit("bright-green");
    reveal_strlit("brightgreen");
    reveal_strlit("yellow");
    reveal_strlit("bright-yellow");
    reveal_strlit("brightyellow");
    reveal_strlit("blue");
    reveal_strlit("bright-blue");
    reveal_strlit("brightblue");
    reveal_strlit("magenta");
    reveal_strlit("bright-magenta");
    reveal_strlit("brightmagenta");
    reveal_strlit("cyan");
    reveal_strlit("bright-cyan");
    reveal_strlit("brightcyan");
    reveal_strlit("white");
    reveal_strlit("bright-white");
    reveal_strlit("brightwhite");
    reveal_strlit("gray");
    reveal_strlit("grey");
    reveal_strlit("bright-");
    reveal_strlit("bright");
    assert("bright-"@ + "cyan"@ =~= "bright-cyan"@);
    assert("bright"@ + "cyan"@ =~= "brightcyan"@);
    assert("cyan"@[0] != "blue"@[0]);
    assert("bright-cyan"@[6] != "brightblack"@[6]);
    assert("bright-cyan"@[6] != "brightgreen"@[6]);
    assert("bright-cyan"@[7] != "bright-blue"@[7]);
    assert("brightcyan"@[6] != "bright-red"@[6]);
    assert("brightcyan"@[6] != "brightblue"@[6]);
}

proof fn lemma_white_names()
    ensures
        color_from_lowercase("white"@) == Some(Color::White),
        color_from_lowercase("bright-"@ + "white"@) == Some(Color::BrightWhite),
        color_from_lowercase("bright"@ + "white"@) == Some(Color::BrightWhite),
{
    reveal_strlit("black");
    reveal_strlit("bright-black");
    reveal_strlit("brightblack");
    reveal_strlit("red");
    reveal_strlit("bright-red");
    reveal_strlit("brightred");
    reveal_strlit("green");
    reveal_strlit("bright-green");
    reveal_strlit("brightgreen");
    reveal_strlit("yellow");
    reveal_strlit("bright-yellow");
    reveal_strlit("brightyellow");
    reveal_strlit("blue");
    reveal_strlit("bright-blue");
    reveal_strlit("brightblue");
    reveal_strlit("magenta");
    reveal_strlit("bright-magenta");
    reveal_strlit("brightmagenta");
    reveal_strlit("cyan");
    reveal_strlit("bright-cyan");
    reveal_strlit("brightcyan");
    reveal_strlit("white");
    reveal_strlit("bright-white");
    reveal_strlit("brightwhite");
    reveal_strlit("gray");
    reveal_strlit("grey");
    reveal_strlit("bright-");
    reveal_strlit("bright");
    assert("bright-"@ + "white"@ =~= "bright-white"@);
    assert("bright"@ + "white"@ =~= "brightwhite"@);
    assert("white"@[0] != "black"@[0]);
    assert("white"@[0] != "green"@[0]);
    assert("bright-white"@[7] != "bright-black"@[7]);
    assert("bright-white"@[7] != "bright-green"@[7]);
    assert("bright-white"@[6] != "brightyellow"@[6]);
    assert("brightwhite"@[6] != "brightblack"@[6]);
    assert("brightwhite"@[6] != "brightgreen"@[6]);
    assert("brightwhite"@[6] != "bright-blue"@[6]);
    assert("brightwhite"@[6] != "bright-cyan"@[6]);
}


/// `#` and six hexadecimal digits, of either case, name the colour whose red,
/// green and blue bytes they spell; such a text is ASCII, so `parse_color`
/// returns exactly that colour for it.
pub proof fn law_hex_colour(s: Seq<char>)
    requires
        s.len() == 7,
        s[0] == '#',
        forall|i: int| 1 <= i < 7 ==> #[trigger] hex_char(s[i]) is Some,
    ensures
        is_ascii_chars(s),
        color_from_lowercase(ascii_lowered(s)) == Some(
            Color::Rgb(hex_byte(s[1], s[2]), hex_byte(s[3], s[4]), hex_byte(s[5], s[6])),
        ),
{
    broadcast use is_ascii_chars_encode_utf8;

    assert forall|i: int| 0 <= i < s.len() implies '\0' <= #[trigger] s[i] <= '\u{7f}' by {
        if i > 0 {
            assert(hex_char(s[i]) is Some);
        }
    }
    let t = ascii_lowered(s);
    lemma_ascii_lowered(s);
    let b = encode_utf8(t);
    assert(b.len() == 7);
    assert forall|i: int| 1 <= i < 7 implies #[trigger] hex_digit(b[i]) == hex_char(s[i]) by {
        assert(hex_char(s[i]) is Some);
        assert(t[i] == ascii_lower(s[i]));
        assert(b[i] == t[i] as u8);
        let c = t[i] as u32;
        assert(c < 128 ==> (c as u8) as u32 == c) by (bit_vector);
    }
    assert(b[0] == 35) by {
        assert(t[0] == '#');
        assert(b[0] == t[0] as u8);
    }
    assert(b[1] != 43 && b[3] != 43 && b[5] != 43) by {
        assert(hex_digit(b[1]) is Some && hex_digit(b[3]) is Some && hex_digit(b[5]) is Some);
    }
    assert(t[0] == '#');
    {
        reveal_strlit("black");
        reveal_strlit("red");
        reveal_strlit("green");
        reveal_strlit("yellow");
        reveal_strlit("blue");
        reveal_strlit("magenta");
        reveal_strlit("cyan");
        reveal_strlit("white");
        reveal_strlit("bright-black");
        reveal_strlit("brightblack");
        reveal_strlit("gray");
        reveal_strlit("grey");
        reveal_strlit("bright-red");
        reveal_strlit("brightred");
        reveal_strlit("bright-green");
        reveal_strlit("brightgreen");
        reveal_strlit("bright-yellow");
        reveal_strlit("brightyellow");
        reveal_strlit("bright-blue");
        reveal_strlit("brightblue");
        reveal_strlit("bright-magenta");
        reveal_strlit("brightmagenta");
        reveal_strlit("bright-cyan");
        reveal_strlit("brightcyan");
        reveal_strlit("bright-white");
        reveal_strlit("brightwhite");
    }
    assert(t != "black"@) by { if t == "black"@ { assert(t[0] == "black"@[0]); } }
    assert(t != "red"@) by { if t == "red"@ { assert(t[0] == "red"@[0]); } }
    assert(t != "green"@) by { if t == "green"@ { assert(t[0] == "green"@[0]); } }
    assert(t != "yellow"@) by { if t == "yellow"@ { assert(t[0] == "yellow"@[0]); } }
    assert(t != "blue"@) by { if t == "blue"@ { assert(t[0] == "blue"@[0]); } }
    assert(t != "magenta"@) by { if t == "magenta"@ { assert(t[0] == "magenta"@[0]); } }
    assert(t != "cyan"@) by { if t == "cyan"@ { assert(t[0] == "cyan"@[0]); } }
    assert(t != "white"@) by { if t == "white"@ { assert(t[0] == "white"@[0]); } }
    assert(t != "bright-black"@) by { if t == "bright-black"@ { assert(t[0] == "bright-black"@[0]); } }
    assert(t != "brightblack"@) by { if t == "brightblack"@ { assert(t[0] == "brightblack"@[0]); } }
    assert(t != "gray"@) by { if t == "gray"@ { assert(t[0] == "gray"@[0]); } }
    assert(t != "grey"@) by { if t == "grey"@ { assert(t[0] == "grey"@[0]); } }
    assert(t != "bright-red"@) by { if t == "bright-red"@ { assert(t[0] == "bright-red"@[0]); } }
    assert(t != "brightred"@) by { if t == "brightred"@ { assert(t[0] == "brightred"@[0]); } }
    assert(t != "bright-green"@) by { if t == "bright-green"@ { assert(t[0] == "bright-green"@[0]); } }
    assert(t != "brightgreen"@) by { if t == "brightgreen"@ { assert(t[0] == "brightgreen"@[0]); } }
    assert(t != "bright-yellow"@) by { if t == "bright-yellow"@ { assert(t[0] == "bright-yellow"@[0]); } }
    assert(t != "brightyellow"@) by { if t == "brightyellow"@ { assert(t[0] == "brightyellow"@[0]); } }
    assert(t != "bright-blue"@) by { if t == "bright-blue"@ { assert(t[0] == "bright-blue"@[0]); } }
    assert(t != "brightblue"@) by { if t == "brightblue"@ { assert(t[0] == "brightblue"@[0]); } }
    assert(t != "bright-magenta"@) by { if t == "bright-magenta"@ { assert(t[0] == "bright-magenta"@[0]); } }
    assert(t != "brightmagenta"@) by { if t == "brightmagenta"@ { assert(t[0] == "brightmagenta"@[0]); } }
    assert(t != "bright-cyan"@) by { if t == "bright-cyan"@ { assert(t[0] == "bright-cyan"@[0]); } }
    assert(t != "brightcyan"@) by { if t == "brightcyan"@ { assert(t[0] == "brightcyan"@[0]); } }
    assert(t != "bright-white"@) by { if t == "bright-white"@ { assert(t[0] == "bright-white"@[0]); } }
    assert(t != "brightwhite"@) by { if t == "brightwhite"@ { assert(t[0] == "brightwhite"@[0]); } }
}

/// No colour name is a palette entry: those come only from SGR sequences.
pub proof fn law_names_are_not_palette_entries(t: Seq<char>)
    ensures
        !(color_from_lowercase(t) matches Some(Color::Indexed(_))),
{
}

} // verus!
