//! A small interpreter for a concatenative, stack-based language whose
//! values are one-dimensional typed arrays (numeric or character).
//!
//! A line of source text is lexed ([`lexer`]), parsed into a token
//! sequence ([`parser`]), and evaluated against an explicit value stack
//! ([`eval`]), with user-definable named procedures ("words") and simple
//! forward-jump control flow.

pub mod array;
pub mod builtins;
pub mod dict;
pub mod errors;
pub mod eval;
pub mod lexer;
pub mod nd;
pub mod parser;
pub mod text;
