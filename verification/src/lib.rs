//! Bulk file renaming: rename rules, planning, conflict detection and undo.

pub mod cli;
pub mod command;
pub mod conflict;
pub mod display;
pub mod engine;
pub mod error;
pub mod frontend;
pub mod gui;
pub mod host;
pub mod laws;
pub mod text;
pub mod unicode;
pub mod order;
pub mod path;
pub mod pattern;
pub mod rules;
pub mod scanner;
pub mod undo;
