//! Front end of a small scripting language: a tokenizer, a recursive-descent
//! parser and a tree-walking evaluator over a store of named bindings.
//!
//! The language has numbers and strings, declarations of mutable (`let`)
//! and immutable (`final`) bindings, arithmetic with one precedence for all
//! operators, and compound assignment. `lexer` turns source text into
//! tokens, `parser` turns tokens into a syntax tree, and `memories` walks the
//! tree and fills the store; `interpreter` runs the three in a row.
//! `semantics` says what evaluation means, and `laws` holds what is proved
//! of the whole beyond the contracts of the single functions.
//!
//! Every stage stops at its first error and gives it back as a value.

pub mod chars;
pub mod interpreter;
pub mod laws;
pub mod lexer;
pub mod memories;
pub mod parser;
pub mod semantics;
