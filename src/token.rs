use vstd::prelude::*;
use crate::types::Type;

verus! {

/// The value carried by a literal token.
#[derive(Debug, Clone, PartialEq, Eq)]
pub enum Literal {
    /// The digits as written, with a leading `-` for a negative number.
    Number(String),
    /// The text between the two quotes.
    String(String),
    Boolean(bool),
}

/// One classified unit of source text.
#[derive(Debug, Clone, PartialEq, Eq)]
pub enum Token {
    Literal(Literal),
    Identifier(String),
    Keyword(String),
    Operator(String),
    Punctuation(char),
    Type(Type),
    Comment(String),
    /// Marks the end of the input; always the last token, and the only one of its kind.
    EOF,
}

/// A literal with its text as a sequence of characters.
pub enum LiteralView {
    Number(Seq<char>),
    String(Seq<char>),
    Boolean(bool),
}

/// A token with its text as a sequence of characters.
pub enum TokenView {
    Literal(LiteralView),
    Identifier(Seq<char>),
    Keyword(Seq<char>),
    Operator(Seq<char>),
    Punctuation(char),
    Type(Type),
    Comment(Seq<char>),
    EOF,
}

impl View for Literal {
    type V = LiteralView;

    open spec fn view(&self) -> LiteralView {
        match self {
            Literal::Number(s) => LiteralView::Number(s@),
            Literal::String(s) => LiteralView::String(s@),
            Literal::Boolean(b) => LiteralView::Boolean(*b),
        }
    }
}

impl View for Token {
    type V = TokenView;

    open spec fn view(&self) -> TokenView {
        match self {
            Token::Literal(l) => TokenView::Literal(l@),
            Token::Identifier(s) => TokenView::Identifier(s@),
            Token::Keyword(s) => TokenView::Keyword(s@),
            Token::Operator(s) => TokenView::Operator(s@),
            Token::Punctuation(c) => TokenView::Punctuation(*c),
            Token::Type(t) => TokenView::Type(*t),
            Token::Comment(s) => TokenView::Comment(s@),
            Token::EOF => TokenView::EOF,
        }
    }
}

/// The views of a sequence of tokens.
pub open spec fn views(ts: Seq<Token>) -> Seq<TokenView> {
    ts.map_values(|t: Token| t@)
}

} // verus!
