pub mod loader;
pub mod package;
pub mod paths;
