//! A verified interpreter for a small imperative pseudocode teaching
//! language: assignment, console input/output, multi-branch conditionals,
//! pre-test and post-test loops, and a bounded counting loop, over four
//! primitive value kinds (integer, float, text, boolean).
//!
//! The pipeline is `lex` (text to tokens), `parse` (tokens to statements)
//! and `Stmt::eval` (tree-walking evaluation against one flat variable
//! environment). Floating-point arithmetic itself cannot be verified here;
//! it enters through the `FloatOps` trait, whose implementations live with
//! the embedding program.

pub mod err;
pub mod eval;
pub mod lex;
pub mod parse;
pub mod text;
