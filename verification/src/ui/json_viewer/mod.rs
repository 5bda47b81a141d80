//! JSON viewer: raw-text syntax highlighting, the flat JSON tree and its
//! fold state, and the bracket-indenting pretty printer.

pub mod colorize;
pub mod lexer;
pub mod tree;
pub mod state;
pub mod action;
pub mod render;
