//! Tokens: the lexical units that the lexer produces and the parser consumes.

use vstd::prelude::*;

verus! {

/// One lexical unit. A floating-point literal carries its decimal text.
#[derive(Debug, PartialEq, Eq)]
pub enum Token {
    Def,
    If,
    Else,
    While,
    For,
    In,
    Return,
    Let,
    Extern,
    Struct,
    Pass,
    And,
    Or,
    Not,
    True,
    False,
    Ident(String),
    Int(i64),
    Float(String),
    String(String),
    Plus,
    Minus,
    Star,
    Slash,
    Percent,
    Eq,
    EqEq,
    Ne,
    Lt,
    Gt,
    Le,
    Ge,
    LParen,
    RParen,
    Colon,
    Comma,
    Newline,
    Indent,
    Dedent,
    EOF,
    Arrow,
}

/// The model of a token: text as `Seq<char>`, the integer as `int`.
pub enum TokenView {
    Def,
    If,
    Else,
    While,
    For,
    In,
    Return,
    Let,
    Extern,
    Struct,
    Pass,
    And,
    Or,
    Not,
    True,
    False,
    Ident(Seq<char>),
    Int(int),
    Float(Seq<char>),
    String(Seq<char>),
    Plus,
    Minus,
    Star,
    Slash,
    Percent,
    Eq,
    EqEq,
    Ne,
    Lt,
    Gt,
    Le,
    Ge,
    LParen,
    RParen,
    Colon,
    Comma,
    Newline,
    Indent,
    Dedent,
    EOF,
    Arrow,
}

impl View for Token {
    type V = TokenView;

    open spec fn view(&self) -> TokenView {
        match self {
            Token::Def => TokenView::Def,
            Token::If => TokenView::If,
            Token::Else => TokenView::Else,
            Token::While => TokenView::While,
            Token::For => TokenView::For,
            Token::In => TokenView::In,
            Token::Return => TokenView::Return,
            Token::Let => TokenView::Let,
            Token::Extern => TokenView::Extern,
            Token::Struct => TokenView::Struct,
            Token::Pass => TokenView::Pass,
            Token::And => TokenView::And,
            Token::Or => TokenView::Or,
            Token::Not => TokenView::Not,
            Token::True => TokenView::True,
            Token::False => TokenView::False,
            Token::Ident(name) => TokenView::Ident(name@),
            Token::Int(n) => TokenView::Int(*n as int),
            Token::Float(text) => TokenView::Float(text@),
            Token::String(text) => TokenView::String(text@),
            Token::Plus => TokenView::Plus,
            Token::Minus => TokenView::Minus,
            Token::Star => TokenView::Star,
            Token::Slash => TokenView::Slash,
            Token::Percent => TokenView::Percent,
            Token::Eq => TokenView::Eq,
            Token::EqEq => TokenView::EqEq,
            Token::Ne => TokenView::Ne,
            Token::Lt => TokenView::Lt,
            Token::Gt => TokenView::Gt,
            Token::Le => TokenView::Le,
            Token::Ge => TokenView::Ge,
            Token::LParen => TokenView::LParen,
            Token::RParen => TokenView::RParen,
            Token::Colon => TokenView::Colon,
            Token::Comma => TokenView::Comma,
            Token::Newline => TokenView::Newline,
            Token::Indent => TokenView::Indent,
            Token::Dedent => TokenView::Dedent,
            Token::EOF => TokenView::EOF,
            Token::Arrow => TokenView::Arrow,
        }
    }
}

/// The models of a token sequence, in order.
pub open spec fn tokens_view(tokens: Seq<Token>) -> Seq<TokenView> {
    Seq::new(tokens.len(), |i: int| tokens[i]@)
}

/// Two tokens are of the same kind when they are the same variant,
/// whatever they carry.
pub open spec fn same_kind(a: TokenView, b: TokenView) -> bool {
    match a {
        TokenView::Ident(_) => b is Ident,
        TokenView::Int(_) => b is Int,
        TokenView::Float(_) => b is Float,
        TokenView::String(_) => b is String,
        _ => a == b,
    }
}

impl Clone for Token {
    fn clone(&self) -> (copy: Token)
        ensures
            copy@ == self@,
    {
        match self {
            Token::Def => Token::Def,
            Token::If => Token::If,
            Token::Else => Token::Else,
            Token::While => Token::While,
            Token::For => Token::For,
            Token::In => Token::In,
            Token::Return => Token::Return,
            Token::Let => Token::Let,
            Token::Extern => Token::Extern,
            Token::Struct => Token::Struct,
            Token::Pass => Token::Pass,
            Token::And => Token::And,
            Token::Or => Token::Or,
            Token::Not => Token::Not,
            Token::True => Token::True,
            Token::False => Token::False,
            Token::Ident(name) => Token::Ident(name.clone()),
            Token::Int(n) => Token::Int(*n),
            Token::Float(text) => Token::Float(text.clone()),
            Token::String(text) => Token::String(text.clone()),
            Token::Plus => Token::Plus,
            Token::Minus => Token::Minus,
            Token::Star => Token::Star,
            Token::Slash => Token::Slash,
            Token::Percent => Token::Percent,
            Token::Eq => Token::Eq,
            Token::EqEq => Token::EqEq,
            Token::Ne => Token::Ne,
            Token::Lt => Token::Lt,
            Token::Gt => Token::Gt,
            Token::Le => Token::Le,
            Token::Ge => Token::Ge,
            Token::LParen => Token::LParen,
            Token::RParen => Token::RParen,
            Token::Colon => Token::Colon,
            Token::Comma => Token::Comma,
            Token::Newline => Token::Newline,
            Token::Indent => Token::Indent,
            Token::Dedent => Token::Dedent,
            Token::EOF => Token::EOF,
            Token::Arrow => Token::Arrow,
        }
    }
}

impl Token {
    /// Whether `self` and `other` are the same variant.
    pub fn same_kind(&self, other: &Token) -> (same: bool)
        ensures
            same == same_kind(self@, other@),
    {
        match (self, other) {
            (Token::Def, Token::Def) => true,
            (Token::If, Token::If) => true,
            (Token::Else, Token::Else) => true,
            (Token::While, Token::While) => true,
            (Token::For, Token::For) => true,
            (Token::In, Token::In) => true,
            (Token::Return, Token::Return) => true,
            (Token::Let, Token::Let) => true,
            (Token::Extern, Token::Extern) => true,
            (Token::Struct, Token::Struct) => true,
            (Token::Pass, Token::Pass) => true,
            (Token::And, Token::And) => true,
            (Token::Or, Token::Or) => true,
            (Token::Not, Token::Not) => true,
            (Token::True, Token::True) => true,
            (Token::False, Token::False) => true,
            (Token::Ident(_), Token::Ident(_)) => true,
            (Token::Int(_), Token::Int(_)) => true,
            (Token::Float(_), Token::Float(_)) => true,
            (Token::String(_), Token::String(_)) => true,
            (Token::Plus, Token::Plus) => true,
            (Token::Minus, Token::Minus) => true,
            (Token::Star, Token::Star) => true,
            (Token::Slash, Token::Slash) => true,
            (Token::Percent, Token::Percent) => true,
            (Token::Eq, Token::Eq) => true,
            (Token::EqEq, Token::EqEq) => true,
            (Token::Ne, Token::Ne) => true,
            (Token::Lt, Token::Lt) => true,
            (Token::Gt, Token::Gt) => true,
            (Token::Le, Token::Le) => true,
            (Token::Ge, Token::Ge) => true,
            (Token::LParen, Token::LParen) => true,
            (Token::RParen, Token::RParen) => true,
            (Token::Colon, Token::Colon) => true,
            (Token::Comma, Token::Comma) => true,
            (Token::Newline, Token::Newline) => true,
            (Token::Indent, Token::Indent) => true,
            (Token::Dedent, Token::Dedent) => true,
            (Token::EOF, Token::EOF) => true,
            (Token::Arrow, Token::Arrow) => true,
            _ => false,
        }
    }
}

} // verus!
