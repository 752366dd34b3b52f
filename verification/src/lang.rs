//! The surface language's token-level types.

pub mod lexer;
pub mod parser;
pub mod span;
pub mod token;
