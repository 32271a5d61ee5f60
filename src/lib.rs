//! A lexical scanner for a small expression language: identifiers, integer
//! literals, arithmetic and relational operators, parentheses and line
//! comments, produced one positioned token at a time.
pub mod chars;
pub mod text;
pub mod token;
pub mod grammar;
pub mod scanner;
pub mod laws;

pub use grammar::{classify, Start};
pub use scanner::{tokenize, Lexer};
pub use token::{Op, Token, TokenKind};
