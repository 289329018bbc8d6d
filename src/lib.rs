//! A one-pass translator from a small line-oriented scripting language
//! (LET, PRINT, INPUT, IF, WHILE, LABEL, GOTO) to C source text.
//!
//! The tokenizer, the output buffer and the recursive-descent translator are
//! verified against mathematical models of what they produce; `laws` proves
//! properties of whole translations (balanced blocks, define-before-use, the
//! check of GOTO targets).

pub mod emit;
pub mod laws;
pub mod lex;
pub mod names;
pub mod parse;
