use vstd::prelude::*;

verus! {

/// The kind of a token.
#[derive(Debug, Clone, Copy, PartialEq, Eq, Structural)]
pub enum TokenType {
    LeftParen,
    RightParen,
    LeftBrace,
    RightBrace,
    Comma,
    Dot,
    Minus,
    Plus,
    Semicolon,
    Slash,
    Star,
    Bang,
    BangEqual,
    Equal,
    EqualEqual,
    Greater,
    GreaterEqual,
    Less,
    LessEqual,
    Identifier,
    String,
    Number,
    And,
    Class,
    Else,
    False,
    Fun,
    For,
    If,
    Nil,
    Or,
    Print,
    Return,
    Super,
    This,
    True,
    Var,
    While,
    EOF,
}

/// A decoded literal value carried by a token.
///
/// A number is kept as its decimal numeral (digits, optionally a `.` and more
/// digits), which denotes its value exactly.
#[derive(Debug, Clone)]
pub enum Literal {
    String(String),
    Number(Vec<u8>),
    Bool(bool),
    Nil,
}

/// The mathematical value of a `Literal`.
pub enum LiteralView {
    Str(Seq<char>),
    Number(Seq<u8>),
    Bool(bool),
    Nil,
}

impl View for Literal {
    type V = LiteralView;

    open spec fn view(&self) -> LiteralView {
        match self {
            Literal::String(s) => LiteralView::Str(s@),
            Literal::Number(n) => LiteralView::Number(n@),
            Literal::Bool(b) => LiteralView::Bool(*b),
            Literal::Nil => LiteralView::Nil,
        }
    }
}

/// One classified unit of source text.
#[derive(Debug, Clone)]
pub struct Token {
    pub token_type: TokenType,
    /// The source bytes the token spans (empty for the end-of-input marker).
    pub lexeme: Vec<u8>,
    /// The 1-based line on which the token starts.
    pub line: u64,
    pub literal: Option<Literal>,
}

/// The mathematical value of a `Token`.
pub struct TokenView {
    pub kind: TokenType,
    pub lexeme: Seq<u8>,
    pub line: int,
    pub literal: Option<LiteralView>,
}

impl View for Token {
    type V = TokenView;

    open spec fn view(&self) -> TokenView {
        TokenView {
            kind: self.token_type,
            lexeme: self.lexeme@,
            line: self.line as int,
            literal: match self.literal {
                Some(l) => Some(l@),
                None => None,
            },
        }
    }
}

} // verus!
