//! A scanner for a small arithmetic/assignment language.
//!
//! The library turns raw source text into an ordered sequence of tokens,
//! each carrying its lexical category, its exact text, and the zero-based
//! line and one-based column where it begins.

pub mod lexer;
pub mod lexer_fsm;
