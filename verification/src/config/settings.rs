//! The parts of the configuration that the terminal reads as plain values.
use vstd::prelude::*;

verus! {

/// The `[general]` table.
#[derive(Debug, Clone)]
pub struct GeneralSettings {
    pub shell: String,
    pub startup_command: Option<String>,
    pub window_title: String,
}

/// The `[terminal]` table.
#[derive(Debug, Clone)]
pub struct TerminalSettings {
    pub scroll_buffer_size: usize,
    pub cursor_style: CursorStyle,
    pub cursor_blink: bool,
}

/// How the cursor is drawn.
#[derive(Debug, Clone, Copy, PartialEq, Eq, Structural)]
pub enum CursorStyle {
    Block,
    Bar,
    Underline,
}

/// The `[ssh]` table.
#[derive(Debug, Clone)]
pub struct SshSettings {
    pub default_port: u16,
    pub keep_alive_interval: u32,
}

/// The `[plugins]` table; each directory is a path.
#[derive(Debug, Clone)]
pub struct PluginSettings {
    pub enabled: bool,
    pub plugin_dirs: Vec<String>,
}

} // verus!
