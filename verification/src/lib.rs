//! The verified core of a small terminal shell: an ANSI escape-sequence
//! parser, the virtual screen that the parsed output is drawn on, the text
//! styles that SGR sequences select, and the decisions the shell takes on
//! commands, completions and keys.

pub mod style;
pub mod text;
pub mod sgr;
pub mod ansi;
pub mod screen;
pub mod shell;
pub mod app;
pub mod status;
pub mod ui;
