//! Shared building blocks for the mudshark system-inventory commands.
pub mod text;
pub mod table;
pub mod parse;
pub mod json;
pub mod json_indent;
pub mod json_layout;
pub mod format;
pub mod cli;
pub use format::Format;
pub mod commands;
pub mod bytes;
pub mod proc;
pub mod time;
