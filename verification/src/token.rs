//! Lexical tokens and the error types of the two pipeline stages.

use vstd::prelude::*;

verus! {

/// One lexical unit of an arithmetic expression.
///
/// A number token carries the raw character span it was scanned from; the
/// numeric interpretation of that span is left to the consumer of the
/// evaluation plan, so the verified core never touches machine floats.
#[derive(Debug, Clone, PartialEq)]
pub enum Token {
    LeftParen,
    RightParen,
    Plus,
    Minus,
    Multiply,
    Divide,
    Power,
    Number(Vec<char>),
}

/// The mathematical shape of a [`Token`]: the number span is a `Seq<char>`.
pub ghost enum TokenV {
    LeftParen,
    RightParen,
    Plus,
    Minus,
    Multiply,
    Divide,
    Power,
    Number(Seq<char>),
}

impl View for Token {
    type V = TokenV;

    open spec fn view(&self) -> TokenV {
        match self {
            Token::LeftParen => TokenV::LeftParen,
            Token::RightParen => TokenV::RightParen,
            Token::Plus => TokenV::Plus,
            Token::Minus => TokenV::Minus,
            Token::Multiply => TokenV::Multiply,
            Token::Divide => TokenV::Divide,
            Token::Power => TokenV::Power,
            Token::Number(s) => TokenV::Number(s@),
        }
    }
}

/// The view of a whole token sequence.
pub open spec fn toks_view(ts: Seq<Token>) -> Seq<TokenV> {
    ts.map(|i: int, t: Token| t@)
}

/// A lexical failure: the first character that fits no token rule, or a
/// numeric span the consumer could not interpret.
///
/// The scanner itself only ever reports `UnsupportedToken`; `NumberParseFailed`
/// is reserved for the caller that interprets a number span as a float.
#[derive(Debug, Clone, PartialEq)]
pub enum LexError {
    UnsupportedToken(char),
    NumberParseFailed(String),
}

/// A structural failure of the evaluator.
#[derive(Debug, Clone, Copy, PartialEq, Eq, Structural)]
pub enum EvalError {
    /// No tokens to evaluate.
    EmptyExpression,
    /// A `)` with no matching `(` on the operator stack.
    MismatchedParenthesis,
    /// Operand-stack underflow during a calculation, or no result at the end.
    InvalidExpression,
    /// A `(` drained from the operator stack as if it were a binary operator.
    InvalidOperator,
}

/// One of the five binary operators.
#[derive(Debug, Clone, Copy, PartialEq, Eq, Structural)]
pub enum BinOp {
    Add,
    Sub,
    Mul,
    Div,
    Pow,
}

/// An entry of the evaluator's operator stack: a pending `(` or a pending
/// binary operator.
#[derive(Debug, Clone, Copy, PartialEq, Eq, Structural)]
pub enum StackOp {
    Paren,
    Op(BinOp),
}

} // verus!
