//! An interactive textual calculator for small integer matrices.
//!
//! A session feeds one line at a time through three stages: the lexer splits
//! the line into typed tokens, the parser validates them into a command
//! record, and the calculator interprets the record against a registry of
//! named matrices, producing a human-readable reply string.

mod text;

pub mod lexer;
pub mod matrix;
pub mod parser;
pub mod calculator;
