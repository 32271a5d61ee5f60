//! Tokens: operators, the kinds of token, and a token with its position.
use vstd::prelude::*;

verus! {

/// Arithmetic and relational operators.
#[derive(Debug, Clone, Copy, PartialEq, Eq, Structural)]
pub enum Op {
    Plus,
    Minus,
    Multiply,
    Divide,
    Modulo,
    Equal,
    NotEqual,
    Greater,
    GreaterOrEqual,
    Less,
    LessOrEqual,
}

/// The kinds of token. An identifier borrows its text from the source.
#[derive(Debug, Clone, Copy, PartialEq, Eq)]
pub enum TokenKind<'a> {
    Opr(Op),
    Ident(&'a str),
    Num(i32),
    OpeningBracket,
    ClosingBracket,
}

/// A token and the (row, column) of its first character, both counted from 1.
#[derive(Debug, Clone, Copy, PartialEq, Eq)]
pub struct Token<'a> {
    /// The token's kind
    pub kind: TokenKind<'a>,
    /// The token's position in the source
    pub position: (usize, usize),
}

/// What a token kind stands for, with an identifier's text as characters.
pub enum KindModel {
    Opr(Op),
    Ident(Seq<char>),
    Num(i32),
    OpeningBracket,
    ClosingBracket,
}

/// What a token stands for.
pub struct TokenModel {
    pub kind: KindModel,
    pub row: int,
    pub col: int,
}

impl<'a> View for TokenKind<'a> {
    type V = KindModel;

    open spec fn view(&self) -> KindModel {
        match *self {
            TokenKind::Opr(op) => KindModel::Opr(op),
            TokenKind::Ident(s) => KindModel::Ident(s@),
            TokenKind::Num(n) => KindModel::Num(n),
            TokenKind::OpeningBracket => KindModel::OpeningBracket,
            TokenKind::ClosingBracket => KindModel::ClosingBracket,
        }
    }
}

impl<'a> View for Token<'a> {
    type V = TokenModel;

    open spec fn view(&self) -> TokenModel {
        TokenModel { kind: self.kind@, row: self.position.0 as int, col: self.position.1 as int }
    }
}

} // verus!
