//! The front end in the terminal.
pub mod app;
pub mod format;
pub mod ui;
