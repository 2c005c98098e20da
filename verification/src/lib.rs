//! Core of a keyboard-driven terminal file browser.
//!
//! This crate holds the browser controller: the mode state machine that
//! interprets key events, the dual navigation-history model, the selection
//! and marking model, the fuzzy-search annotation engine, the sort engine,
//! the collision-safe destination naming for file operations, and the
//! directory-size cache merge rules. Terminal rendering, raw-mode setup,
//! configuration persistence and the actual filesystem effects live outside
//! the library and talk to it through plain values.

pub mod app;
pub mod clipboard;
pub mod config;
pub mod entry;
pub mod events;
pub mod file_ops;
pub mod fuzzy;
pub mod text;
