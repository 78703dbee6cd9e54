//! The terminal model of CreeperTerm: screen buffer, escape-sequence parser,
//! colours, tabs and the decisions of the application, with their contracts.
pub mod text;
pub mod terminal;
pub mod ui;
pub mod app;
pub mod config;
pub mod ssh;
pub mod plugin;
