pub mod tab_bar;
pub mod theme;

pub use tab_bar::TabBar;
