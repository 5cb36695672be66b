//! stasc: a compiler from STAS scripts to SoulsTAS `.tas` action lines.
//!
//! The action-line grammar (`actions::validate`) is usable on its own by tools
//! that build `.tas` lines without going through the compiler.

pub mod text;
pub mod number;
pub mod actions;
pub mod lexer;
pub mod ast;
pub mod parser;

pub mod semantics;
pub mod interp;
pub mod loader;
pub mod laws;
pub mod import_order;
pub mod guarantees;
