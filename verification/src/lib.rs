//! Turns a loosely structured hotkey-daemon configuration file into a
//! numbered cheatsheet: parallel display lines and shell commands, ready for
//! an interactive chooser.
//!
//! The pipeline is: a document is scanned for binding lines (a line that
//! starts with a modifier name; its command is the following line, its
//! description the preceding comment line) and for section headers (the
//! middle line of three consecutive comment lines); descriptions and titles
//! are normalized; bindings and headers are then merged, in file order, into
//! one numbered listing.

pub mod assemble;
pub mod cheatsheet;
pub mod parse;
pub mod text;
