//! Token kinds produced by the [lexer](super) and consumed by the
//! [parser](crate::parser).
//!
//! Integer, string and identifier tokens carry their value (`Int(i64)`,
//! `Str(String)`, `Ident(String)`). A floating-point literal carries its
//! source spelling (digits, `.`, digits); its numeric value is computed where
//! floating-point arithmetic is available.

use vstd::prelude::*;

use crate::span::Span;
use crate::text::{cat3, str_eq};

verus! {

/// The lexical category of a token, plus any literal payload.
#[derive(Clone, Debug, PartialEq)]
pub enum TokenKind {

    // ---- Literals ----
    /// Integer literal, already range-checked to fit `i64`.
    Int(i64),
    /// Floating-point literal, as written (`digits.digits`).
    Float(String),
    /// String literal with escapes already resolved.
    Str(String),
    /// Identifier (also covers type names like `i64`, resolved later).
    Ident(String),

    // ---- Keywords ----
    Fn,
    Struct,
    Const,
    Let,
    Mut,
    Return,
    If,
    Else,
    While,
    For,
    In,
    Match,
    Break,
    Continue,
    True,
    False,

    // ---- Operators & punctuation ----
    Plus,
    Minus,
    Star,
    Slash,
    Percent,
    EqEq,
    BangEq,
    Lt,
    LtEq,
    Gt,
    GtEq,
    Eq,
    PlusEq,
    MinusEq,
    StarEq,
    SlashEq,
    PercentEq,
    AmpAmp,
    PipePipe,
    Bang,
    LParen,
    RParen,
    LBrace,
    RBrace,
    LBracket,
    RBracket,
    Comma,
    Semi,
    Colon,
    Arrow,
    FatArrow,
    Dot,
    DotDot,

    /// End-of-input sentinel. Always the final token in a stream.
    Eof,
}

/// A number identifying the variant of a token kind, ignoring payloads.
pub open spec fn kind_tag(k: TokenKind) -> nat {
    match k {
        TokenKind::Int(_) => 0,
        TokenKind::Float(_) => 1,
        TokenKind::Str(_) => 2,
        TokenKind::Ident(_) => 3,
        TokenKind::Fn => 4,
        TokenKind::Struct => 5,
        TokenKind::Const => 6,
        TokenKind::Let => 7,
        TokenKind::Mut => 8,
        TokenKind::Return => 9,
        TokenKind::If => 10,
        TokenKind::Else => 11,
        TokenKind::While => 12,
        TokenKind::For => 13,
        TokenKind::In => 14,
        TokenKind::Match => 15,
        TokenKind::Break => 16,
        TokenKind::Continue => 17,
        TokenKind::True => 18,
        TokenKind::False => 19,
        TokenKind::Plus => 20,
        TokenKind::Minus => 21,
        TokenKind::Star => 22,
        TokenKind::Slash => 23,
        TokenKind::Percent => 24,
        TokenKind::EqEq => 25,
        TokenKind::BangEq => 26,
        TokenKind::Lt => 27,
        TokenKind::LtEq => 28,
        TokenKind::Gt => 29,
        TokenKind::GtEq => 30,
        TokenKind::Eq => 31,
        TokenKind::PlusEq => 32,
        TokenKind::MinusEq => 33,
        TokenKind::StarEq => 34,
        TokenKind::SlashEq => 35,
        TokenKind::PercentEq => 36,
        TokenKind::AmpAmp => 37,
        TokenKind::PipePipe => 38,
        TokenKind::Bang => 39,
        TokenKind::LParen => 40,
        TokenKind::RParen => 41,
        TokenKind::LBrace => 42,
        TokenKind::RBrace => 43,
        TokenKind::LBracket => 44,
        TokenKind::RBracket => 45,
        TokenKind::Comma => 46,
        TokenKind::Semi => 47,
        TokenKind::Colon => 48,
        TokenKind::Arrow => 49,
        TokenKind::FatArrow => 50,
        TokenKind::Dot => 51,
        TokenKind::DotDot => 52,
        TokenKind::Eof => 53,
    }
}

/// The keyword spelled by `s`, if it is one.
pub open spec fn keyword_of(s: Seq<char>) -> Option<TokenKind> {
    if s == "fn"@ {
        Some(TokenKind::Fn)
    }
    else if s == "struct"@ {
        Some(TokenKind::Struct)
    }
    else if s == "const"@ {
        Some(TokenKind::Const)
    }
    else if s == "let"@ {
        Some(TokenKind::Let)
    }
    else if s == "mut"@ {
        Some(TokenKind::Mut)
    }
    else if s == "return"@ {
        Some(TokenKind::Return)
    }
    else if s == "if"@ {
        Some(TokenKind::If)
    }
    else if s == "else"@ {
        Some(TokenKind::Else)
    }
    else if s == "while"@ {
        Some(TokenKind::While)
    }
    else if s == "for"@ {
        Some(TokenKind::For)
    }
    else if s == "in"@ {
        Some(TokenKind::In)
    }
    else if s == "match"@ {
        Some(TokenKind::Match)
    }
    else if s == "break"@ {
        Some(TokenKind::Break)
    }
    else if s == "continue"@ {
        Some(TokenKind::Continue)
    }
    else if s == "true"@ {
        Some(TokenKind::True)
    }
    else if s == "false"@ {
        Some(TokenKind::False)
    }
    else {
        None
    }
}

/// The canonical spelling of a fixed token (keyword or punctuation).
pub open spec fn symbol_text(k: TokenKind) -> Seq<char> {
    match k {
        TokenKind::Fn => "fn"@,
        TokenKind::Struct => "struct"@,
        TokenKind::Const => "const"@,
        TokenKind::Let => "let"@,
        TokenKind::Mut => "mut"@,
        TokenKind::Return => "return"@,
        TokenKind::If => "if"@,
        TokenKind::Else => "else"@,
        TokenKind::While => "while"@,
        TokenKind::For => "for"@,
        TokenKind::In => "in"@,
        TokenKind::Match => "match"@,
        TokenKind::Break => "break"@,
        TokenKind::Continue => "continue"@,
        TokenKind::True => "true"@,
        TokenKind::False => "false"@,
        TokenKind::Plus => "+"@,
        TokenKind::Minus => "-"@,
        TokenKind::Star => "*"@,
        TokenKind::Slash => "/"@,
        TokenKind::Percent => "%"@,
        TokenKind::EqEq => "=="@,
        TokenKind::BangEq => "!="@,
        TokenKind::Lt => "<"@,
        TokenKind::LtEq => "<="@,
        TokenKind::Gt => ">"@,
        TokenKind::GtEq => ">="@,
        TokenKind::Eq => "="@,
        TokenKind::PlusEq => "+="@,
        TokenKind::MinusEq => "-="@,
        TokenKind::StarEq => "*="@,
        TokenKind::SlashEq => "/="@,
        TokenKind::PercentEq => "%="@,
        TokenKind::AmpAmp => "&&"@,
        TokenKind::PipePipe => "||"@,
        TokenKind::Bang => "!"@,
        TokenKind::LParen => "("@,
        TokenKind::RParen => ")"@,
        TokenKind::LBrace => "{"@,
        TokenKind::RBrace => "}"@,
        TokenKind::LBracket => "["@,
        TokenKind::RBracket => "]"@,
        TokenKind::Comma => ","@,
        TokenKind::Semi => ";"@,
        TokenKind::Colon => ":"@,
        TokenKind::Arrow => "->"@,
        TokenKind::FatArrow => "=>"@,
        TokenKind::Dot => "."@,
        TokenKind::DotDot => ".."@,
        _ => "<value>"@,
    }
}

impl TokenKind {
    /// The variant number of this kind, ignoring any payload.
    pub fn tag(&self) -> (t: u8)
        ensures
            t == kind_tag(*self),
    {
        match self {
            TokenKind::Int(_) => 0,
            TokenKind::Float(_) => 1,
            TokenKind::Str(_) => 2,
            TokenKind::Ident(_) => 3,
            TokenKind::Fn => 4,
            TokenKind::Struct => 5,
            TokenKind::Const => 6,
            TokenKind::Let => 7,
            TokenKind::Mut => 8,
            TokenKind::Return => 9,
            TokenKind::If => 10,
            TokenKind::Else => 11,
            TokenKind::While => 12,
            TokenKind::For => 13,
            TokenKind::In => 14,
            TokenKind::Match => 15,
            TokenKind::Break => 16,
            TokenKind::Continue => 17,
            TokenKind::True => 18,
            TokenKind::False => 19,
            TokenKind::Plus => 20,
            TokenKind::Minus => 21,
            TokenKind::Star => 22,
            TokenKind::Slash => 23,
            TokenKind::Percent => 24,
            TokenKind::EqEq => 25,
            TokenKind::BangEq => 26,
            TokenKind::Lt => 27,
            TokenKind::LtEq => 28,
            TokenKind::Gt => 29,
            TokenKind::GtEq => 30,
            TokenKind::Eq => 31,
            TokenKind::PlusEq => 32,
            TokenKind::MinusEq => 33,
            TokenKind::StarEq => 34,
            TokenKind::SlashEq => 35,
            TokenKind::PercentEq => 36,
            TokenKind::AmpAmp => 37,
            TokenKind::PipePipe => 38,
            TokenKind::Bang => 39,
            TokenKind::LParen => 40,
            TokenKind::RParen => 41,
            TokenKind::LBrace => 42,
            TokenKind::RBrace => 43,
            TokenKind::LBracket => 44,
            TokenKind::RBracket => 45,
            TokenKind::Comma => 46,
            TokenKind::Semi => 47,
            TokenKind::Colon => 48,
            TokenKind::Arrow => 49,
            TokenKind::FatArrow => 50,
            TokenKind::Dot => 51,
            TokenKind::DotDot => 52,
            TokenKind::Eof => 53,
        }
    }

    /// Maps an identifier string to its keyword kind, if it is one.
    ///
    /// Primitive type names (`i64`, `bool`, ...) are deliberately not keywords:
    /// they are ordinary identifiers recognised contextually by the parser.
    pub fn keyword(ident: &str) -> (r: Option<TokenKind>)
        ensures
            r == keyword_of(ident@),
    {
        if str_eq(ident, "fn") {
            return Some(TokenKind::Fn);
        }
        if str_eq(ident, "struct") {
            return Some(TokenKind::Struct);
        }
        if str_eq(ident, "const") {
            return Some(TokenKind::Const);
        }
        if str_eq(ident, "let") {
            return Some(TokenKind::Let);
        }
        if str_eq(ident, "mut") {
            return Some(TokenKind::Mut);
        }
        if str_eq(ident, "return") {
            return Some(TokenKind::Return);
        }
        if str_eq(ident, "if") {
            return Some(TokenKind::If);
        }
        if str_eq(ident, "else") {
            return Some(TokenKind::Else);
        }
        if str_eq(ident, "while") {
            return Some(TokenKind::While);
        }
        if str_eq(ident, "for") {
            return Some(TokenKind::For);
        }
        if str_eq(ident, "in") {
            return Some(TokenKind::In);
        }
        if str_eq(ident, "match") {
            return Some(TokenKind::Match);
        }
        if str_eq(ident, "break") {
            return Some(TokenKind::Break);
        }
        if str_eq(ident, "continue") {
            return Some(TokenKind::Continue);
        }
        if str_eq(ident, "true") {
            return Some(TokenKind::True);
        }
        if str_eq(ident, "false") {
            return Some(TokenKind::False);
        }
        None
    }

    /// Whether two kinds are the same variant, ignoring any payload.
    pub fn same_kind(&self, other: &TokenKind) -> (b: bool)
        ensures
            b == (kind_tag(*self) == kind_tag(*other)),
    {
        self.tag() == other.tag()
    }

    /// The canonical spelling of a fixed token (keyword or punctuation).
    ///
    /// For literals, identifiers and end of input, which have no fixed
    /// spelling, this returns a placeholder; callers use
    /// [`describe`](Self::describe) for those.
    pub fn symbol(&self) -> (s: &'static str)
        ensures
            s@ == symbol_text(*self),
    {
        match self {
            TokenKind::Fn => "fn",
            TokenKind::Struct => "struct",
            TokenKind::Const => "const",
            TokenKind::Let => "let",
            TokenKind::Mut => "mut",
            TokenKind::Return => "return",
            TokenKind::If => "if",
            TokenKind::Else => "else",
            TokenKind::While => "while",
            TokenKind::For => "for",
            TokenKind::In => "in",
            TokenKind::Match => "match",
            TokenKind::Break => "break",
            TokenKind::Continue => "continue",
            TokenKind::True => "true",
            TokenKind::False => "false",
            TokenKind::Plus => "+",
            TokenKind::Minus => "-",
            TokenKind::Star => "*",
            TokenKind::Slash => "/",
            TokenKind::Percent => "%",
            TokenKind::EqEq => "==",
            TokenKind::BangEq => "!=",
            TokenKind::Lt => "<",
            TokenKind::LtEq => "<=",
            TokenKind::Gt => ">",
            TokenKind::GtEq => ">=",
            TokenKind::Eq => "=",
            TokenKind::PlusEq => "+=",
            TokenKind::MinusEq => "-=",
            TokenKind::StarEq => "*=",
            TokenKind::SlashEq => "/=",
            TokenKind::PercentEq => "%=",
            TokenKind::AmpAmp => "&&",
            TokenKind::PipePipe => "||",
            TokenKind::Bang => "!",
            TokenKind::LParen => "(",
            TokenKind::RParen => ")",
            TokenKind::LBrace => "{",
            TokenKind::RBrace => "}",
            TokenKind::LBracket => "[",
            TokenKind::RBracket => "]",
            TokenKind::Comma => ",",
            TokenKind::Semi => ";",
            TokenKind::Colon => ":",
            TokenKind::Arrow => "->",
            TokenKind::FatArrow => "=>",
            TokenKind::Dot => ".",
            TokenKind::DotDot => "..",
            _ => "<value>",
        }
    }

    /// A short, human-readable description for diagnostics, e.g. `` `+` `` or
    /// `` identifier `x` ``.
    pub fn describe(&self) -> (s: String)
        ensures
            s@ == (match *self {
                TokenKind::Int(_) => "integer literal"@,
                TokenKind::Float(_) => "float literal"@,
                TokenKind::Str(_) => "string literal"@,
                TokenKind::Ident(name) => "identifier `"@ + name@ + "`"@,
                TokenKind::Eof => "end of file"@,
                other => "`"@ + symbol_text(other) + "`"@,
            }),
    {
        match self {
            TokenKind::Int(_) => "integer literal".to_owned(),
            TokenKind::Float(_) => "float literal".to_owned(),
            TokenKind::Str(_) => "string literal".to_owned(),
            TokenKind::Ident(name) => {
                cat3("identifier `", name.as_str(), "`")
            },
            TokenKind::Eof => "end of file".to_owned(),
            other => {
                cat3("`", other.symbol(), "`")
            },
        }
    }
}

/// A token: its kind and the source span it covers.
#[derive(Clone, Debug, PartialEq)]
pub struct Token {
    pub kind: TokenKind,
    pub span: Span,
}

impl Token {
    pub fn new(kind: TokenKind, span: Span) -> (t: Token)
        ensures
            t.kind == kind,
            t.span == span,
    {
        Token { kind, span }
    }
}

} // verus!
