//! Core logic of a terminal "away from keyboard" banner: a glyph block is
//! turned into an endless sequence of vertical slices, painted by a cyclic
//! RGB sweep, and scrolled through a window that follows the terminal width.
pub mod ansi;
pub mod banner;
pub mod color;
pub mod command;
pub mod footer;
pub mod pattern;
pub mod scroll;
pub mod timer;
