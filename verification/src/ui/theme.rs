//! The colours of a theme.
use vstd::prelude::*;

use crate::terminal::buffer::Color;

verus! {

/// The colours a theme gives to the screen and to the sixteen named colours.
#[derive(Debug, Clone, Copy, PartialEq, Eq, Structural)]
pub struct ThemeColors {
    pub background: Color,
    pub foreground: Color,
    pub cursor: Color,
    pub selection: Color,
    pub black: Color,
    pub red: Color,
    pub green: Color,
    pub yellow: Color,
    pub blue: Color,
    pub magenta: Color,
    pub cyan: Color,
    pub white: Color,
    pub bright_black: Color,
    pub bright_red: Color,
    pub bright_green: Color,
    pub bright_yellow: Color,
    pub bright_blue: Color,
    pub bright_magenta: Color,
    pub bright_cyan: Color,
    pub bright_white: Color,
}

/// The colours of the default theme.
pub open spec fn default_colors() -> ThemeColors {
    ThemeColors {
        background: Color::Rgb(30, 30, 30),
        foreground: Color::Rgb(220, 220, 220),
        cursor: Color::Rgb(255, 255, 255),
        selection: Color::Rgb(68, 71, 90),
        black: Color::Black,
        red: Color::Red,
        green: Color::Green,
        yellow: Color::Yellow,
        blue: Color::Blue,
        magenta: Color::Magenta,
        cyan: Color::Cyan,
        white: Color::White,
        bright_black: Color::BrightBlack,
        bright_red: Color::BrightRed,
        bright_green: Color::BrightGreen,
        bright_yellow: Color::BrightYellow,
        bright_blue: Color::BrightBlue,
        bright_magenta: Color::BrightMagenta,
        bright_cyan: Color::BrightCyan,
        bright_white: Color::BrightWhite,
    }
}

/// The colours of the Dracula theme.
pub open spec fn dracula_colors() -> ThemeColors {
    ThemeColors {
        background: Color::Rgb(40, 42, 54),
        foreground: Color::Rgb(248, 248, 242),
        cursor: Color::Rgb(248, 248, 242),
        selection: Color::Rgb(68, 71, 90),
        black: Color::Rgb(0, 0, 0),
        red: Color::Rgb(255, 85, 85),
        green: Color::Rgb(80, 250, 123),
        yellow: Color::Rgb(241, 250, 140),
        blue: Color::Rgb(98, 114, 164),
        magenta: Color::Rgb(255, 121, 198),
        cyan: Color::Rgb(139, 233, 253),
        white: Color::Rgb(255, 255, 255),
        bright_black: Color::Rgb(85, 85, 85),
        bright_red: Color::Rgb(255, 121, 121),
        bright_green: Color::Rgb(115, 255, 155),
        bright_yellow: Color::Rgb(255, 255, 170),
        bright_blue: Color::Rgb(130, 145, 200),
        bright_magenta: Color::Rgb(255, 160, 220),
        bright_cyan: Color::Rgb(170, 240, 255),
        bright_white: Color::Rgb(255, 255, 255),
    }
}

impl ThemeColors {
    /// The colours of the default theme: a dark grey background, light grey text,
    /// and the named colours as themselves.
    pub fn default_palette() -> (c: Self)
        ensures
            c == default_colors(),
    {
        ThemeColors {
            background: Color::Rgb(30, 30, 30),
            foreground: Color::Rgb(220, 220, 220),
            cursor: Color::Rgb(255, 255, 255),
            selection: Color::Rgb(68, 71, 90),
            black: Color::Black,
            red: Color::Red,
            green: Color::Green,
            yellow: Color::Yellow,
            blue: Color::Blue,
            magenta: Color::Magenta,
            cyan: Color::Cyan,
            white: Color::White,
            bright_black: Color::BrightBlack,
            bright_red: Color::BrightRed,
            bright_green: Color::BrightGreen,
            bright_yellow: Color::BrightYellow,
            bright_blue: Color::BrightBlue,
            bright_magenta: Color::BrightMagenta,
            bright_cyan: Color::BrightCyan,
            bright_white: Color::BrightWhite,
        }
    }

    /// The colours of the Dracula theme, each a 24-bit colour.
    pub fn dracula_palette() -> (c: Self)
        ensures
            c == dracula_colors(),
    {
        ThemeColors {
            background: Color::Rgb(40, 42, 54),
            foreground: Color::Rgb(248, 248, 242),
            cursor: Color::Rgb(248, 248, 242),
            selection: Color::Rgb(68, 71, 90),
            black: Color::Rgb(0, 0, 0),
            red: Color::Rgb(255, 85, 85),
            green: Color::Rgb(80, 250, 123),
            yellow: Color::Rgb(241, 250, 140),
            blue: Color::Rgb(98, 114, 164),
            magenta: Color::Rgb(255, 121, 198),
            cyan: Color::Rgb(139, 233, 253),
            white: Color::Rgb(255, 255, 255),
            bright_black: Color::Rgb(85, 85, 85),
            bright_red: Color::Rgb(255, 121, 121),
            bright_green: Color::Rgb(115, 255, 155),
            bright_yellow: Color::Rgb(255, 255, 170),
            bright_blue: Color::Rgb(130, 145, 200),
            bright_magenta: Color::Rgb(255, 160, 220),
            bright_cyan: Color::Rgb(170, 240, 255),
            bright_white: Color::Rgb(255, 255, 255),
        }
    }
}

} // verus!
