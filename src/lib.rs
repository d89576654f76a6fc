//! A small interpreter for a toy integer language: source text is parsed into
//! program units of variable bindings and expressions, which are then evaluated
//! to a single `i32`.
pub mod ast;
pub mod error;
pub mod interpreter;
pub mod eval;
pub mod memory;
pub mod parser;
pub mod round_trip;
