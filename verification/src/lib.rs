//! A pull-based tokenizer for a small expression language: identifiers, a
//! `let` keyword, numeric literals, single-character operators, parentheses
//! and a statement terminator.
//!
//! The tokenizer in [`lexer`] walks a character buffer and hands out one
//! token per call, skipping whitespace between tokens.  What every step
//! does is pinned down by the model in [`scan`], whose laws relate whole
//! tokenizations to the source text: every character lands in exactly one
//! token or whitespace gap, and whitespace between tokens never changes the
//! outcome.

pub mod classify;
pub mod token;
pub mod scan;
pub mod lexer;
