//! A single-line shell front-end: a lexer that tokenizes raw input with
//! byte-accurate source spans, a parser that assembles tokens into an ordered
//! sequence of command statements joined by pipe/redirect operators, and an
//! execution engine that turns that statement sequence into a plan of wired
//! process spawns and builtin invocations. The caller performs the actual
//! process and file I/O from the plan.

pub mod ast;
pub mod diagnostics;
pub mod input_lexer;
pub mod input_parser;
pub mod engine;
