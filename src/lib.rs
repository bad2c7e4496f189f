//! Lexical analysis for a small programming language: a UTF-8 byte decoder
//! and a tokenizer state machine on top of it, both specified and verified.
pub mod token;
pub mod chars;
pub mod decoder;
pub mod lexer;


pub use token::{Error, Token, TokenType};
pub use chars::is_operator;
pub use decoder::{Decoder, Lookahead};
pub use lexer::{tokenize, Lexer, LexerMode};

