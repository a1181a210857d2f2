//! A verified toolchain for a minimal tape-based esoteric language with
//! eight single-character instructions.
//!
//! The pipeline has four stages sharing one data model:
//! - [`lexer::Lexer`] scans source text into [`tokens::Token`]s,
//! - [`parser::Parser`] builds an instruction forest of [`statements::Statement`]s,
//! - [`interpreter::Interpreter`] executes the forest over a fixed-size
//!   circular byte tape,
//! - [`encoder::Encoder`] greedily synthesizes the minimal per-cell
//!   increment/decrement sequence that reproduces a target byte sequence.

pub mod encoder;
pub mod errors;
pub mod interpreter;
pub mod lexer;
pub mod parser;
pub mod statements;
pub mod tokens;
