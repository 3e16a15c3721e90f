use vstd::prelude::*;

use crate::tokens::Literal;

verus! {

/// An expression of the language, as the parser builds it.
pub enum Expr {
    /// A literal value, the leaf of every expression tree.
    Literal(Literal),
    Binary(Box<Expr>, BinaryOp, Box<Expr>),
}

/// A binary operator.
pub struct BinaryOp {
    pub op_type: BinaryOperationType,
}

/// The kinds of binary operator.
#[derive(Debug, Clone, Copy, PartialEq, Eq, Structural)]
pub enum BinaryOperationType {
    Plus,
    Minus,
    Star,
    Slash,
    Equal,
    NotEqual,
    Greater,
    GreaterEqual,
    Less,
    LessEqual,
}

/// The kinds of unary operator.
#[derive(Debug, Clone, Copy, PartialEq, Eq, Structural)]
pub enum UnaryOperationType {
    Minus,
    Bang,
}

} // verus!
