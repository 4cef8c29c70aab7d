//! The lexical grammar, stated on the source characters: where trivia and
//! each token end, what each token is, and which lexical errors a scan
//! reports, in order.

use vstd::prelude::*;

use super::token::{keyword_of, Token, TokenKind};
use super::{at_trivia, blen, escape_char, spec_ident_continue, spec_ident_start, spec_whitespace};
use crate::backend::builtins::digits_value;
use crate::errors::DiagCode;

verus! {

/// What a token is, with its text payloads as character sequences.
pub enum Lexeme {
    /// A token without a text payload: punctuation, a keyword, an integer
    /// literal, or the end of input.
    Plain(TokenKind),
    /// A floating-point literal, as written.
    Float(Seq<char>),
    /// A string literal's value, escapes resolved.
    Str(Seq<char>),
    /// An identifier.
    Ident(Seq<char>),
}

/// The lexeme a token kind stands for.
pub open spec fn lexeme_of(k: TokenKind) -> Lexeme {
    match k {
        TokenKind::Float(s) => Lexeme::Float(s@),
        TokenKind::Str(s) => Lexeme::Str(s@),
        TokenKind::Ident(s) => Lexeme::Ident(s@),
        _ => Lexeme::Plain(k),
    }
}

/// A token as a lexeme and its byte span.
pub open spec fn token_view(t: Token) -> (Lexeme, int, int) {
    (lexeme_of(t.kind), t.span.lo as int, t.span.hi as int)
}

/// The views of a token stream.
pub open spec fn token_views(ts: Seq<Token>) -> Seq<(Lexeme, int, int)> {
    ts.map_values(|t: Token| token_view(t))
}

pub open spec fn is_digit_char(c: char) -> bool {
    '0' <= c <= '9'
}

/// The end of the run of ASCII digits that starts at `i`.
pub open spec fn digits_end(cs: Seq<char>, i: int) -> int
    decreases cs.len() - i,
{
    if 0 <= i < cs.len() && is_digit_char(cs[i]) {
        digits_end(cs, i + 1)
    } else {
        i
    }
}

/// The end of the run of identifier characters that starts at `i`.
pub open spec fn ident_end(cs: Seq<char>, i: int) -> int
    decreases cs.len() - i,
{
    if 0 <= i < cs.len() && spec_ident_continue(cs[i]) {
        ident_end(cs, i + 1)
    } else {
        i
    }
}

/// The next line break at or after `i`, or the end of input.
pub open spec fn line_end(cs: Seq<char>, i: int) -> int
    decreases cs.len() - i,
{
    if 0 <= i < cs.len() && cs[i] != '\n' {
        line_end(cs, i + 1)
    } else {
        i
    }
}

/// Scanning a block comment that is `depth` levels deep from `k`: where the
/// scan stops, and whether every level was closed (nested `/*` opens one
/// more, `*/` closes one).
pub open spec fn block_end(cs: Seq<char>, k: int, depth: nat) -> (int, bool)
    decreases cs.len() - k,
{
    if depth == 0 {
        (k, true)
    } else if !(0 <= k < cs.len()) {
        (k, false)
    } else if cs[k] == '/' && k + 1 < cs.len() && cs[k + 1] == '*' {
        block_end(cs, k + 2, depth + 1)
    } else if cs[k] == '*' && k + 1 < cs.len() && cs[k + 1] == '/' {
        block_end(cs, k + 2, (depth - 1) as nat)
    } else {
        block_end(cs, k + 1, depth)
    }
}

/// Skipping white space and comments from `i`: where real input (or the end)
/// starts, and the errors reported on the way (an unclosed block comment).
/// Each comment ends past its start, which the guards record.
pub open spec fn trivia(cs: Seq<char>, i: int) -> (int, Seq<DiagCode>)
    decreases cs.len() - i,
{
    if !at_trivia(cs, i) {
        (i, seq![])
    } else if spec_whitespace(cs[i]) {
        trivia(cs, i + 1)
    } else if cs[i + 1] == '/' {
        let e = line_end(cs, i + 1);
        if i < e <= cs.len() {
            trivia(cs, e)
        } else {
            (i, seq![])
        }
    } else {
        let b = block_end(cs, i + 2, 1);
        let r = if i < b.0 <= cs.len() {
            trivia(cs, b.0)
        } else {
            (i, seq![])
        };
        (r.0, if b.1 {
            r.1
        } else {
            seq![DiagCode::UnterminatedComment] + r.1
        })
    }
}

/// A number literal starting at the digit at `j`: its lexeme, its end, and
/// its error. A float needs a `.` followed by a digit (so `1..2` is a
/// range); an integer that does not fit in `i64` is reported and read as 0.
pub open spec fn number(cs: Seq<char>, j: int) -> (Lexeme, int, Seq<DiagCode>) {
    let e = digits_end(cs, j);
    if e + 1 < cs.len() && cs[e] == '.' && is_digit_char(cs[e + 1]) {
        let f = digits_end(cs, e + 1);
        (Lexeme::Float(cs.subrange(j, f)), f, seq![])
    } else if digits_value(cs.subrange(j, e)) <= i64::MAX {
        (Lexeme::Plain(TokenKind::Int(digits_value(cs.subrange(j, e)) as i64)), e, seq![])
    } else {
        (Lexeme::Plain(TokenKind::Int(0)), e, seq![DiagCode::InvalidNumber])
    }
}

/// An identifier or keyword starting at `j`.
pub open spec fn ident(cs: Seq<char>, j: int) -> (Lexeme, int) {
    let e = ident_end(cs, j + 1);
    let text = cs.subrange(j, e);
    (
        match keyword_of(text) {
            Some(k) => Lexeme::Plain(k),
            None => Lexeme::Ident(text),
        },
        e,
    )
}

/// The rest of a string literal from `k`, with `acc` read so far: its value,
/// its end, and its errors. A known escape stands for its character; an
/// unknown one is kept verbatim and reported; input that ends first is
/// reported as an unterminated string.
pub open spec fn string_body(cs: Seq<char>, k: int, acc: Seq<char>) -> (Seq<char>, int, Seq<DiagCode>)
    decreases cs.len() - k,
{
    if !(0 <= k < cs.len()) {
        (acc, k, seq![DiagCode::UnterminatedString])
    } else if cs[k] == '"' {
        (acc, k + 1, seq![])
    } else if cs[k] == '\\' {
        if k + 1 >= cs.len() {
            string_body(cs, k + 1, acc)
        } else {
            match escape_char(cs[k + 1]) {
                Some(e) => string_body(cs, k + 2, acc.push(e)),
                None => {
                    let r = string_body(cs, k + 2, acc.push('\\').push(cs[k + 1]));
                    (r.0, r.1, seq![DiagCode::InvalidEscape] + r.2)
                },
            }
        }
    } else {
        string_body(cs, k + 1, acc.push(cs[k]))
    }
}

/// Whether the character after `j` is `c`.
pub open spec fn next_is(cs: Seq<char>, j: int, c: char) -> bool {
    j + 1 < cs.len() && cs[j + 1] == c
}

/// The punctuation token at `j`, longest match first, and its end; `None`
/// for a character that starts no token.
pub open spec fn symbol(cs: Seq<char>, j: int) -> (Option<TokenKind>, int) {
    let c = cs[j];
    let two = j + 2;
    let one = j + 1;
    if c == '+' {
        if next_is(cs, j, '=') { (Some(TokenKind::PlusEq), two) } else { (Some(TokenKind::Plus), one) }
    } else if c == '-' {
        if next_is(cs, j, '>') {
            (Some(TokenKind::Arrow), two)
        } else if next_is(cs, j, '=') {
            (Some(TokenKind::MinusEq), two)
        } else {
            (Some(TokenKind::Minus), one)
        }
    } else if c == '*' {
        if next_is(cs, j, '=') { (Some(TokenKind::StarEq), two) } else { (Some(TokenKind::Star), one) }
    } else if c == '/' {
        if next_is(cs, j, '=') { (Some(TokenKind::SlashEq), two) } else { (Some(TokenKind::Slash), one) }
    } else if c == '%' {
        if next_is(cs, j, '=') { (Some(TokenKind::PercentEq), two) } else { (Some(TokenKind::Percent), one) }
    } else if c == '=' {
        if next_is(cs, j, '=') {
            (Some(TokenKind::EqEq), two)
        } else if next_is(cs, j, '>') {
            (Some(TokenKind::FatArrow), two)
        } else {
            (Some(TokenKind::Eq), one)
        }
    } else if c == '!' {
        if next_is(cs, j, '=') { (Some(TokenKind::BangEq), two) } else { (Some(TokenKind::Bang), one) }
    } else if c == '<' {
        if next_is(cs, j, '=') { (Some(TokenKind::LtEq), two) } else { (Some(TokenKind::Lt), one) }
    } else if c == '>' {
        if next_is(cs, j, '=') { (Some(TokenKind::GtEq), two) } else { (Some(TokenKind::Gt), one) }
    } else if c == '&' && next_is(cs, j, '&') {
        (Some(TokenKind::AmpAmp), two)
    } else if c == '|' && next_is(cs, j, '|') {
        (Some(TokenKind::PipePipe), two)
    } else if c == '.' {
        if next_is(cs, j, '.') { (Some(TokenKind::DotDot), two) } else { (Some(TokenKind::Dot), one) }
    } else if c == '(' {
        (Some(TokenKind::LParen), one)
    } else if c == ')' {
        (Some(TokenKind::RParen), one)
    } else if c == '{' {
        (Some(TokenKind::LBrace), one)
    } else if c == '}' {
        (Some(TokenKind::RBrace), one)
    } else if c == '[' {
        (Some(TokenKind::LBracket), one)
    } else if c == ']' {
        (Some(TokenKind::RBracket), one)
    } else if c == ',' {
        (Some(TokenKind::Comma), one)
    } else if c == ';' {
        (Some(TokenKind::Semi), one)
    } else if c == ':' {
        (Some(TokenKind::Colon), one)
    } else {
        (None, one)
    }
}

/// The token that starts at `j` (a character that is not trivia): its
/// lexeme (`None` for a stray character), its end, and its errors.
pub open spec fn token_at(cs: Seq<char>, j: int) -> (Option<Lexeme>, int, Seq<DiagCode>) {
    let c = cs[j];
    if is_digit_char(c) {
        let n = number(cs, j);
        (Some(n.0), n.1, n.2)
    } else if spec_ident_start(c) {
        let n = ident(cs, j);
        (Some(n.0), n.1, seq![])
    } else if c == '"' {
        let s = string_body(cs, j + 1, seq![]);
        (Some(Lexeme::Str(s.0)), s.1, s.2)
    } else {
        let s = symbol(cs, j);
        match s.0 {
            Some(k) => (Some(Lexeme::Plain(k)), s.1, seq![]),
            None => (None, s.1, seq![DiagCode::UnexpectedChar]),
        }
    }
}

/// Lexing from character `i`: the tokens, each with its byte span, ending
/// in the end-of-input token, and the lexical errors in the order they are
/// met. Each token ends past its start, which the guard records.
pub open spec fn lex(cs: Seq<char>, i: int) -> (Seq<(Lexeme, int, int)>, Seq<DiagCode>)
    decreases cs.len() - i,
{
    let t = trivia(cs, i);
    let j = t.0;
    if j >= cs.len() {
        (seq![(Lexeme::Plain(TokenKind::Eof), blen(cs) as int, blen(cs) as int)], t.1)
    } else {
        let s = token_at(cs, j);
        let k = s.1;
        let rest = if 0 <= i <= j < k <= cs.len() {
            lex(cs, k)
        } else {
            (seq![], seq![])
        };
        let here = match s.0 {
            Some(l) => seq![(l, blen(cs.take(j)) as int, blen(cs.take(k)) as int)],
            None => seq![],
        };
        (here + rest.0, t.1 + s.2 + rest.1)
    }
}

} // verus!
