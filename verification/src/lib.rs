//! A toolchain for a minimalist language whose syntax is repetitions of a
//! single keyword: a two-pass compiler that lowers source text to a
//! fixed-width 15-byte bytecode, and a typed, stack-based interpreter
//! that executes it.
pub mod compiler;
pub mod data_struct;
pub mod encoding;
pub mod infra;
pub mod interpreter;
pub mod text;
pub mod utils;
