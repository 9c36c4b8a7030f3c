//! Drawing a detected note.

pub mod cmd_line;
