use creeper_term::terminal::buffer::Color;
use creeper_term::ui::theme::ThemeColors;

#[test]
fn default_palette_uses_named_colours() {
    let c = ThemeColors::default_palette();
    assert_eq!(c.background, Color::Rgb(30, 30, 30));
    assert_eq!(c.foreground, Color::Rgb(220, 220, 220));
    assert_eq!(c.cursor, Color::Rgb(255, 255, 255));
    assert_eq!(c.selection, Color::Rgb(68, 71, 90));
    assert_eq!(c.red, Color::Red);
    assert_eq!(c.bright_white, Color::BrightWhite);
}

#[test]
fn dracula_palette_uses_true_colours() {
    let c = ThemeColors::dracula_palette();
    assert_eq!(c.background, Color::Rgb(40, 42, 54));
    assert_eq!(c.foreground, Color::Rgb(248, 248, 242));
    assert_eq!(c.red, Color::Rgb(255, 85, 85));
    assert_eq!(c.bright_magenta, Color::Rgb(255, 160, 220));
    assert_eq!(c.bright_white, Color::Rgb(255, 255, 255));
}
