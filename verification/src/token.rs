//! The lexical tokens that the lexer hands to the parser, together with
//! their mathematical model.

use vstd::prelude::*;

verus! {

/// One lexical unit of the calculator language.
///
/// A numeric literal carries the 64-bit encoding of its value exactly as the
/// lexer produced it; the parser stores that word untouched and never
/// interprets it, so the evaluator downstream reads back precisely what the
/// lexer wrote.
#[derive(Debug, PartialEq)]
pub enum Token {
    Identifier(String),
    NumericLiteral(u64),
    OpAdd,
    OpSubtract,
    OpMultiply,
    OpDivide,
    OpAssign,
    OpenParen,
    CloseParen,
}

/// The model of a token: an identifier's name is its character sequence.
#[verifier::ext_equal]
pub enum TokenView {
    Identifier(Seq<char>),
    NumericLiteral(u64),
    OpAdd,
    OpSubtract,
    OpMultiply,
    OpDivide,
    OpAssign,
    OpenParen,
    CloseParen,
}

impl View for Token {
    type V = TokenView;

    open spec fn view(&self) -> TokenView {
        match self {
            Token::Identifier(name) => TokenView::Identifier(name@),
            Token::NumericLiteral(value) => TokenView::NumericLiteral(*value),
            Token::OpAdd => TokenView::OpAdd,
            Token::OpSubtract => TokenView::OpSubtract,
            Token::OpMultiply => TokenView::OpMultiply,
            Token::OpDivide => TokenView::OpDivide,
            Token::OpAssign => TokenView::OpAssign,
            Token::OpenParen => TokenView::OpenParen,
            Token::CloseParen => TokenView::CloseParen,
        }
    }
}

impl DeepView for Token {
    type V = TokenView;

    open spec fn deep_view(&self) -> TokenView {
        self.view()
    }
}

impl Clone for Token {
    /// A clone carries the very same name or value, so it models the same token.
    fn clone(&self) -> (res: Self)
        ensures
            res == *self,
    {
        match self {
            Token::Identifier(name) => Token::Identifier(name.clone()),
            Token::NumericLiteral(value) => Token::NumericLiteral(*value),
            Token::OpAdd => Token::OpAdd,
            Token::OpSubtract => Token::OpSubtract,
            Token::OpMultiply => Token::OpMultiply,
            Token::OpDivide => Token::OpDivide,
            Token::OpAssign => Token::OpAssign,
            Token::OpenParen => Token::OpenParen,
            Token::CloseParen => Token::CloseParen,
        }
    }
}

} // verus!
