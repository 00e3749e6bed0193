//! Tokens produced by the scanner, their mathematical model, and the
//! lexical error kinds.

use vstd::prelude::*;

verus! {

/// One lexical unit of input. Payload-bearing variants copy their text out
/// of the source; tokens hold no reference into the source buffer.
#[derive(Debug, PartialEq, Eq)]
pub enum Token {
    Identifier(String),
    Number(i64),
    StringLiteral(String),
    Plus,
    Minus,
    Multiply,
    Divide,
    LParen,
    RParen,
    Semicolon,
    Dot,
    Comment(String),
    BlockComment(String),
    System,
    Log,
    EndOfFile,
}

/// The mathematical model of a token: text payloads as character
/// sequences, the numeric payload as an unbounded integer.
pub ghost enum TokenModel {
    Identifier(Seq<char>),
    Number(int),
    StringLiteral(Seq<char>),
    Plus,
    Minus,
    Multiply,
    Divide,
    LParen,
    RParen,
    Semicolon,
    Dot,
    Comment(Seq<char>),
    BlockComment(Seq<char>),
    System,
    Log,
    EndOfFile,
}

impl View for Token {
    type V = TokenModel;

    open spec fn view(&self) -> TokenModel {
        match self {
            Token::Identifier(s) => TokenModel::Identifier(s@),
            Token::Number(n) => TokenModel::Number(*n as int),
            Token::StringLiteral(s) => TokenModel::StringLiteral(s@),
            Token::Plus => TokenModel::Plus,
            Token::Minus => TokenModel::Minus,
            Token::Multiply => TokenModel::Multiply,
            Token::Divide => TokenModel::Divide,
            Token::LParen => TokenModel::LParen,
            Token::RParen => TokenModel::RParen,
            Token::Semicolon => TokenModel::Semicolon,
            Token::Dot => TokenModel::Dot,
            Token::Comment(s) => TokenModel::Comment(s@),
            Token::BlockComment(s) => TokenModel::BlockComment(s@),
            Token::System => TokenModel::System,
            Token::Log => TokenModel::Log,
            Token::EndOfFile => TokenModel::EndOfFile,
        }
    }
}

/// A lexical error. Every error is fatal to the whole scan: after an error
/// the caller must not pull further tokens.
#[derive(Debug, PartialEq, Eq, Clone, Copy)]
pub enum LexError {
    /// An opening `"` with no closing `"` before end of input.
    UnterminatedString,
    /// An opening `/*` with no closing `*/` before end of input.
    UnterminatedBlockComment,
    /// A character that starts no token; it is carried along.
    UnexpectedCharacter(char),
    /// A numeral that does not fit in a 64-bit signed integer.
    NumberOverflow,
}

} // verus!
