//! Tokens, their kinds, and the errors of decoding and tokenizing.
use vstd::prelude::*;

verus! {

/// The class of a token.
#[derive(Clone, Copy, Debug, PartialEq, Eq, Structural)]
pub enum TokenType {
    Unknown,
    IntegerLiteral,
    StringLiteral,
    CharLiteral,
    Keyword,
    Identifier,
    Operator,
}

/// What can go wrong while decoding or tokenizing. `EndOfFile` is the clean
/// end of the token stream rather than a failure.
#[derive(Clone, Copy, Debug, PartialEq, Eq, Structural)]
pub enum Error {
    Unknown,
    InternalError,
    EndOfFile,
    UnexpectedEndOfFile,
    DecoderError,
    InvalidCodePoint,
    InvalidCharacter,
    InvalidToken,
}

/// A classified token with the exact source text that makes it up
/// (without the quotes for a string literal).
pub struct Token {
    pub token_type: TokenType,
    pub content: String,
}

/// The mathematical value of a token.
pub struct TokenView {
    pub token_type: TokenType,
    pub content: Seq<char>,
}

impl View for Token {
    type V = TokenView;

    open spec fn view(&self) -> TokenView {
        TokenView { token_type: self.token_type, content: self.content@ }
    }
}

/// The value of a tokenizer result: tokens by their view, errors as they are.
pub open spec fn result_view(r: Result<Token, Error>) -> Result<TokenView, Error> {
    match r {
        Ok(t) => Ok(t@),
        Err(e) => Err(e),
    }
}

} // verus!
