//! A lexical analyzer and backtracking node-parsing framework for a small
//! experimental language.
//!
//! The lexer turns a source string into a finite stream of single-purpose
//! tokens; the traverser wraps that stream in a cursor with cheap
//! snapshot/restore backtracking; the node combinators build whitespace,
//! identifier, number, string and type productions on top of it, reporting
//! structured errors tagged with the token position where they were raised.

pub mod annotation;
pub mod comment;
pub mod identifier;
pub mod node;
pub mod number;
pub mod operator;
pub mod parser;
pub mod string;
pub mod support;
pub mod token;
pub mod traverser;
pub mod types;
pub mod variant;
pub mod whitespace;
