//! The lexer: turns source text into a flat [`Token`] stream.
//!
//! The scanner is a hand-written, single-pass cursor over the source
//! characters, tracking the byte offset of the cursor for spans.
//!
//! Lexing never aborts. On a malformed token (stray character, unterminated
//! string, bad number) it emits a [`Diagnostic`] and resynchronises, so that a
//! single typo does not hide every later token. The returned stream always ends
//! in [`TokenKind::Eof`].

pub mod rules;
pub mod token;

pub use token::{Token, TokenKind};

use vstd::prelude::*;
use vstd::utf8::*;

use crate::backend::builtins::digits_value;
use crate::diagnostics::{diag_codes, lemma_diag_codes_push, Diagnostic, Diagnostics};
use crate::errors::DiagCode;
use crate::source::SourceFile;
use crate::span::Span;
use crate::text::{cat3, chars_of, push_char};
use rules::{
    block_end, ident, ident_end, lex, lexeme_of, line_end, number, digits_end, string_body, symbol,
    token_at, token_view, token_views, trivia, Lexeme,
};
use token::{keyword_of, kind_tag};

verus! {

/// The number of bytes in the UTF-8 encoding of `c`.
pub open spec fn char_width(c: char) -> nat {
    let u = c as u32;
    if u < 0x80 {
        1
    } else if u < 0x800 {
        2
    } else if u < 0x10000 {
        3
    } else {
        4
    }
}

/// The number of bytes in the UTF-8 encoding of `s`.
pub open spec fn blen(s: Seq<char>) -> nat
    decreases s.len(),
{
    if s.len() == 0 {
        0
    } else {
        blen(s.drop_last()) + char_width(s.last())
    }
}

proof fn lemma_encode_append(a: Seq<char>, b: Seq<char>)
    ensures
        encode_utf8(a + b) == encode_utf8(a) + encode_utf8(b),
    decreases a.len(),
{
    if a.len() == 0 {
        assert(a + b =~= b);
    } else {
        lemma_encode_append(a.drop_first(), b);
        assert((a + b).drop_first() =~= a.drop_first() + b);
        assert((a + b)[0] == a[0]);
    }
}

/// The byte count agrees with the UTF-8 encoding.
pub proof fn lemma_blen_encode(s: Seq<char>)
    ensures
        blen(s) == encode_utf8(s).len(),
    decreases s.len(),
{
    if s.len() > 0 {
        lemma_blen_encode(s.drop_last());
        lemma_encode_append(s.drop_last(), seq![s.last()]);
        assert(s.drop_last() + seq![s.last()] =~= s);
        let c = s.last();
        char_is_scalar(c);
        assert(encode_utf8(seq![c]) =~= encode_scalar(c as u32) + encode_utf8(seq![c].drop_first()));
        assert(seq![c].drop_first() =~= Seq::<char>::empty());
    }
}

proof fn lemma_blen_take_mono(s: Seq<char>, i: int, j: int)
    requires
        0 <= i <= j <= s.len(),
    ensures
        blen(s.take(i)) <= blen(s.take(j)),
    decreases j - i,
{
    if i < j {
        lemma_blen_take_mono(s, i, j - 1);
        assert(s.take(j).drop_last() =~= s.take(j - 1));
    }
}

proof fn lemma_blen_take_step(s: Seq<char>, i: int)
    requires
        0 <= i < s.len(),
    ensures
        blen(s.take(i + 1)) == blen(s.take(i)) + char_width(s[i]),
{
    assert(s.take(i + 1).drop_last() =~= s.take(i));
}

/// `a` is a prefix of `b`.
pub open spec fn extends<T>(a: Seq<T>, b: Seq<T>) -> bool {
    a.len() <= b.len() && forall|i: int| 0 <= i < a.len() ==> #[trigger] b[i] == a[i]
}

/// Whether `c` may start an identifier.
pub open spec fn spec_ident_start(c: char) -> bool {
    ('a' <= c <= 'z') || ('A' <= c <= 'Z') || c == '_'
}

/// Whether `c` may continue an identifier.
pub open spec fn spec_ident_continue(c: char) -> bool {
    spec_ident_start(c) || ('0' <= c <= '9')
}

/// Unicode white space (the `White_Space` property).
pub open spec fn spec_whitespace(c: char) -> bool {
    let u = c as u32;
    (0x09 <= u <= 0x0D) || u == 0x20 || u == 0x85 || u == 0xA0 || u == 0x1680 || (0x2000 <= u
        <= 0x200A) || u == 0x2028 || u == 0x2029 || u == 0x202F || u == 0x205F || u == 0x3000
}

fn is_ident_start(c: char) -> (b: bool)
    ensures
        b == spec_ident_start(c),
{
    ('a' <= c && c <= 'z') || ('A' <= c && c <= 'Z') || c == '_'
}

fn is_ident_continue(c: char) -> (b: bool)
    ensures
        b == spec_ident_continue(c),
{
    is_ident_start(c) || ('0' <= c && c <= '9')
}

fn is_digit(c: char) -> (b: bool)
    ensures
        b == ('0' <= c <= '9'),
{
    '0' <= c && c <= '9'
}

/// Whether `c` is white space (`char::is_whitespace`).
pub(crate) fn is_whitespace(c: char) -> (b: bool)
    ensures
        b == spec_whitespace(c),
{
    let u = c as u32;
    (0x09 <= u && u <= 0x0D) || u == 0x20 || u == 0x85 || u == 0xA0 || u == 0x1680 || (0x2000 <= u
        && u <= 0x200A) || u == 0x2028 || u == 0x2029 || u == 0x202F || u == 0x205F || u == 0x3000
}

fn width(c: char) -> (w: usize)
    ensures
        w == char_width(c),
{
    let u = c as u32;
    if u < 0x80 {
        1
    } else if u < 0x800 {
        2
    } else if u < 0x10000 {
        3
    } else {
        4
    }
}

/// The properties every token stream produced by [`tokenize`] has.
pub open spec fn well_formed_tokens(toks: Seq<Token>, len: nat) -> bool {
    &&& toks.len() >= 1
    &&& toks.last().kind == TokenKind::Eof
    &&& toks.last().span.lo == len && toks.last().span.hi == len
    &&& forall|i: int| 0 <= i < toks.len() - 1 ==> (#[trigger] toks[i]).kind != TokenKind::Eof
    &&& forall|i: int| 0 <= i < toks.len() ==> (#[trigger] toks[i]).span.lo <= toks[i].span.hi <= len
    &&& forall|i: int| 0 <= i < toks.len() - 1 ==> (#[trigger] toks[i]).span.lo < toks[i].span.hi
    &&& forall|i: int, j: int| 0 <= i < j < toks.len() ==> (#[trigger] toks[i]).span.hi <= (#[trigger] toks[j]).span.lo
    &&& forall|i: int| 0 <= i < toks.len() ==> token_payload_ok(#[trigger] toks[i].kind)
}

/// Literal payloads as the lexer produces them: integers are non-negative;
/// identifiers are non-empty, made of identifier characters, and are not
/// keywords.
pub open spec fn token_payload_ok(k: TokenKind) -> bool {
    match k {
        TokenKind::Int(v) => v >= 0,
        TokenKind::Ident(name) => {
            &&& name@.len() > 0
            &&& spec_ident_start(name@[0])
            &&& forall|q: int| 0 <= q < name@.len() ==> spec_ident_continue(#[trigger] name@[q])
            &&& keyword_of(name@) is None
        },
        _ => true,
    }
}

/// Tokenises `file`, reporting any lexical errors into `diags`.
///
/// The returned vector always ends with an [`TokenKind::Eof`] token whose span
/// is the empty range at end-of-input, giving the parser a stable sentinel.
/// The tokens, and the codes of the errors reported, are those of the
/// lexical grammar in [`rules::lex`].
pub fn tokenize(file: &SourceFile, diags: &mut Diagnostics) -> (toks: Vec<Token>)
    requires
        file.wf(),
        old(diags).wf(),
    ensures
        final(diags).wf(),
        extends(old(diags).spec_items(), final(diags).spec_items()),
        well_formed_tokens(toks@, file.spec_bytes().len()),
        token_views(toks@) == lex(file.spec_text(), 0).0,
        diag_codes(final(diags).spec_items()) == diag_codes(old(diags).spec_items()) + lex(file.spec_text(), 0).1,
{
    let chars = chars_of(file.text());
    proof {
        lemma_blen_encode(chars@);
        file.lemma_wf_len();
    }
    let mut lexer = Lexer { chars, idx: 0, pos: 0 };
    proof {
        assert(lexer.chars@.take(0) =~= Seq::<char>::empty());
    }
    lexer.run(diags)
}

/// Internal scanning state.
struct Lexer {
    chars: Vec<char>,
    /// Index of the current character.
    idx: usize,
    /// Byte offset of the current character.
    pos: usize,
}

impl Lexer {
    spec fn wf(&self) -> bool {
        &&& self.idx <= self.chars@.len()
        &&& self.pos == blen(self.chars@.take(self.idx as int))
        &&& blen(self.chars@) < u32::MAX
    }

    spec fn remaining(&self) -> int {
        self.chars@.len() - self.idx
    }

    proof fn lemma_pos_bound(&self)
        requires
            self.wf(),
        ensures
            self.pos <= blen(self.chars@),
    {
        lemma_blen_take_mono(self.chars@, self.idx as int, self.chars@.len() as int);
        assert(self.chars@.take(self.chars@.len() as int) =~= self.chars@);
    }

    fn run(&mut self, diags: &mut Diagnostics) -> (toks: Vec<Token>)
        requires
            old(self).wf(),
            old(self).idx == 0,
            old(diags).wf(),
        ensures
            final(diags).wf(),
            extends(old(diags).spec_items(), final(diags).spec_items()),
            well_formed_tokens(toks@, blen(old(self).chars@)),
            token_views(toks@) == lex(old(self).chars@, 0).0,
            diag_codes(final(diags).spec_items()) == diag_codes(old(diags).spec_items()) + lex(old(self).chars@, 0).1,
    {
        let mut tokens: Vec<Token> = Vec::new();
        let ghost chars = self.chars@;
        let ghost diags0 = diags.spec_items();
        proof {
            assert(token_views(tokens@) + lex(chars, 0).0 =~= lex(chars, 0).0);
        }
        loop
            invariant
                self.wf(),
                self.chars@ == chars,
                chars == old(self).chars@,
                diags0 == old(diags).spec_items(),
                diags.wf(),
                extends(diags0, diags.spec_items()),
                forall|i: int| 0 <= i < tokens@.len() ==> (#[trigger] tokens@[i]).kind != TokenKind::Eof,
                forall|i: int| 0 <= i < tokens@.len() ==> (#[trigger] tokens@[i]).span.lo <= tokens@[i].span.hi <= self.pos,
                forall|i: int| 0 <= i < tokens@.len() ==> (#[trigger] tokens@[i]).span.lo < tokens@[i].span.hi,
                forall|i: int, j: int| 0 <= i < j < tokens@.len() ==> (#[trigger] tokens@[i]).span.hi <= (#[trigger] tokens@[j]).span.lo,
                forall|i: int| 0 <= i < tokens@.len() ==> token_payload_ok(#[trigger] tokens@[i].kind),
                token_views(tokens@) + lex(chars, self.idx as int).0 == lex(chars, 0).0,
                diag_codes(diags.spec_items()) + lex(chars, self.idx as int).1 == diag_codes(diags0) + lex(chars, 0).1,
            decreases self.remaining(),
        {
            let ghost i0 = self.idx as int;
            let ghost d_start = diags.spec_items();
            let ghost before = tokens@;
            self.skip_trivia(diags);
            let start = self.pos;
            let ghost j = self.idx as int;
            let ghost d_mid = diags.spec_items();
            match self.peek() {
                None => {
                    proof {
                        assert(self.chars@.take(self.idx as int) =~= self.chars@);
                    }
                    let eof = Span::new(self.pos as u32, self.pos as u32);
                    let tok = Token::new(TokenKind::Eof, eof);
                    tokens.push(tok);
                    proof {
                        let l = lex(chars, i0);
                        assert(token_views(tokens@) =~= token_views(before).push(token_view(tok)));
                        assert(l.0 =~= seq![token_view(tok)]);
                        assert(token_views(tokens@) =~= token_views(before) + l.0);
                        assert(diag_codes(diags.spec_items()) =~= diag_codes(d_start) + l.1);
                    }
                    return tokens;
                },
                Some(ch) => {
                    let ghost s1 = *self;
                    let t = self.scan_token(ch, start, diags);
                    let ghost k = self.idx as int;
                    proof {
                        let r = token_at(chars, j);
                        let l = lex(chars, i0);
                        let rest = lex(chars, k);
                        assert(0 <= i0 <= j < k <= chars.len());
                        assert(l.1 == trivia(chars, i0).1 + r.2 + rest.1);
                        assert(diag_codes(diags.spec_items()) + rest.1 =~= diag_codes(d_start) + l.1);
                    }
                    match t {
                        Some(token) => {
                            proof {
                                lemma_blen_take_step(self.chars@, s1.idx as int);
                                lemma_blen_take_mono(self.chars@, s1.idx + 1, self.idx as int);
                                assert(char_width(self.chars@[s1.idx as int]) >= 1);
                            }
                            tokens.push(token);
                            proof {
                                let l = lex(chars, i0);
                                assert(token_views(tokens@) =~= token_views(before).push(token_view(token)));
                                assert(l.0 =~= seq![token_view(token)] + lex(chars, k).0);
                                assert(token_views(tokens@) + lex(chars, k).0 =~= token_views(before) + l.0);
                            }
                        },
                        None => {
                            proof {
                                let l = lex(chars, i0);
                                assert(l.0 =~= lex(chars, k).0);
                            }
                        },
                    }
                },
            }
        }
    }

    // ---- cursor primitives ----
    /// The current character without advancing.
    fn peek(&self) -> (c: Option<char>)
        requires
            self.wf(),
        ensures
            self.idx < self.chars@.len() ==> c == Some(self.chars@[self.idx as int]),
            self.idx >= self.chars@.len() ==> c is None,
    {
        if self.idx < self.chars.len() {
            Some(self.chars[self.idx])
        } else {
            None
        }
    }

    /// The character one position ahead of the cursor.
    fn peek2(&self) -> (c: Option<char>)
        requires
            self.wf(),
        ensures
            self.idx + 1 < self.chars@.len() ==> c == Some(self.chars@[self.idx + 1]),
            self.idx + 1 >= self.chars@.len() ==> c is None,
    {
        if self.idx < self.chars.len() && self.idx + 1 < self.chars.len() {
            Some(self.chars[self.idx + 1])
        } else {
            None
        }
    }

    /// Advances past and returns the current character.
    fn bump(&mut self) -> (c: Option<char>)
        requires
            old(self).wf(),
        ensures
            final(self).wf(),
            final(self).chars@ == old(self).chars@,
            old(self).idx < old(self).chars@.len() ==> c == Some(old(self).chars@[old(self).idx as int])
                && final(self).idx == old(self).idx + 1,
            old(self).idx >= old(self).chars@.len() ==> c is None && *final(self) == *old(self),
            final(self).pos >= old(self).pos,
    {
        if self.idx < self.chars.len() {
            let c = self.chars[self.idx];
            proof {
                lemma_blen_take_step(self.chars@, self.idx as int);
                lemma_blen_take_mono(self.chars@, self.idx + 1, self.chars@.len() as int);
                assert(self.chars@.take(self.chars@.len() as int) =~= self.chars@);
            }
            self.pos = self.pos + width(c);
            self.idx = self.idx + 1;
            Some(c)
        } else {
            None
        }
    }

    /// Advances if the current character equals `expected`.
    fn eat(&mut self, expected: char) -> (b: bool)
        requires
            old(self).wf(),
        ensures
            final(self).wf(),
            final(self).chars@ == old(self).chars@,
            b ==> final(self).idx == old(self).idx + 1,
            !b ==> *final(self) == *old(self),
            final(self).pos >= old(self).pos,
            b == (old(self).idx < old(self).chars@.len() && old(self).chars@[old(self).idx as int] == expected),
    {
        if self.peek() == Some(expected) {
            self.bump();
            true
        } else {
            false
        }
    }

    fn span_from(&self, start: usize) -> (s: Span)
        requires
            self.wf(),
            start <= self.pos,
        ensures
            s.lo == start,
            s.hi == self.pos,
    {
        proof {
            self.lemma_pos_bound();
        }
        Span::new(start as u32, self.pos as u32)
    }

    // ---- trivia ----
    /// Skips whitespace and both comment forms, looping until real input.
    fn skip_trivia(&mut self, diags: &mut Diagnostics)
        requires
            old(self).wf(),
            old(diags).wf(),
        ensures
            final(self).wf(),
            final(self).chars@ == old(self).chars@,
            final(self).idx >= old(self).idx,
            final(self).pos >= old(self).pos,
            final(diags).wf(),
            extends(old(diags).spec_items(), final(diags).spec_items()),
            !at_trivia(final(self).chars@, final(self).idx as int),
            !at_trivia(old(self).chars@, old(self).idx as int) ==> *final(self) == *old(self)
                && final(diags).spec_items() == old(diags).spec_items(),
            final(self).idx == trivia(old(self).chars@, old(self).idx as int).0,
            diag_codes(final(diags).spec_items()) == diag_codes(old(diags).spec_items()) + trivia(
                old(self).chars@,
                old(self).idx as int,
            ).1,
    {
        let ghost diags0 = diags.spec_items();
        let ghost self0 = *self;
        let ghost goal = trivia(self0.chars@, self0.idx as int);
        loop
            invariant
                trivia(self.chars@, self.idx as int).0 == goal.0,
                diag_codes(diags.spec_items()) + trivia(self.chars@, self.idx as int).1 == diag_codes(diags0) + goal.1,
                goal == trivia(self0.chars@, self0.idx as int),
                self.wf(),
                self0 == *old(self),
                !at_trivia(self0.chars@, self0.idx as int) ==> *self == self0 && diags.spec_items() == diags0,
                self.chars@ == self0.chars@,
                self.idx >= self0.idx,
                self.pos >= self0.pos,
                diags.wf(),
                diags0 == old(diags).spec_items(),
                extends(diags0, diags.spec_items()),
            decreases self.remaining(),
        {
            let ghost i = self.idx as int;
            let ghost d0 = diags.spec_items();
            let ghost cs = self.chars@;
            match self.peek() {
                Some(c) => {
                    if is_whitespace(c) {
                        self.bump();
                    } else if c == '/' && self.peek2() == Some('/') {
                        self.skip_line_comment();
                    } else if c == '/' && self.peek2() == Some('*') {
                        self.skip_block_comment(diags);
                        proof {
                            let b = block_end(cs, i + 2, 1);
                            let r = trivia(cs, self.idx as int);
                            assert(trivia(cs, i).1 == if b.1 { r.1 } else { seq![DiagCode::UnterminatedComment] + r.1 });
                            if b.1 {
                                assert(diag_codes(diags.spec_items()) + r.1 == diag_codes(d0) + trivia(cs, i).1);
                            } else {
                                assert(diag_codes(diags.spec_items()) + r.1 =~= diag_codes(d0) + trivia(cs, i).1);
                            }
                        }
                    } else {
                        proof {
                            assert(diag_codes(diags.spec_items()) + seq![] =~= diag_codes(diags.spec_items()));
                        }
                        return;
                    }
                },
                None => {
                    proof {
                        assert(diag_codes(diags.spec_items()) + seq![] =~= diag_codes(diags.spec_items()));
                    }
                    return;
                },
            }
        }
    }

    fn skip_line_comment(&mut self)
        requires
            old(self).wf(),
            old(self).idx < old(self).chars@.len(),
            old(self).chars@[old(self).idx as int] == '/',
        ensures
            final(self).wf(),
            final(self).chars@ == old(self).chars@,
            final(self).idx > old(self).idx,
            final(self).pos >= old(self).pos,
            final(self).idx == line_end(old(self).chars@, old(self).idx + 1),
    {
        let ghost self0 = *self;
        self.bump();
        while self.idx < self.chars.len() && self.chars[self.idx] != '\n'
            invariant
                line_end(self.chars@, self.idx as int) == line_end(self0.chars@, self0.idx + 1),
                self.wf(),
                self0 == *old(self),
                self.chars@ == self0.chars@,
                self.idx > self0.idx,
                self.pos >= self0.pos,
            decreases self.remaining(),
        {
            self.bump();
        }
    }

    /// Skips a `/* ... */` comment, supporting nesting. Reports an unterminated
    /// comment if the input ends before the nesting returns to zero.
    fn skip_block_comment(&mut self, diags: &mut Diagnostics)
        requires
            old(self).wf(),
            old(self).idx + 1 < old(self).chars@.len(),
            old(diags).wf(),
        ensures
            final(self).wf(),
            final(self).chars@ == old(self).chars@,
            final(self).idx > old(self).idx,
            final(self).pos >= old(self).pos,
            final(diags).wf(),
            extends(old(diags).spec_items(), final(diags).spec_items()),
            final(self).idx == block_end(old(self).chars@, old(self).idx + 2, 1).0,
            block_end(old(self).chars@, old(self).idx + 2, 1).1 ==> final(diags).spec_items() == old(
                diags,
            ).spec_items(),
            !block_end(old(self).chars@, old(self).idx + 2, 1).1 ==> diag_codes(final(diags).spec_items())
                == diag_codes(old(diags).spec_items()).push(DiagCode::UnterminatedComment),
    {
        let ghost self0 = *self;
        let start = self.pos;
        self.bump();  // '/'
        self.bump();  // '*'
        let mut depth: u32 = 1;
        proof {
            lemma_len_le_blen(self.chars@);
        }
        while depth > 0
            invariant
                block_end(self.chars@, self.idx as int, depth as nat) == block_end(self0.chars@, self0.idx + 2, 1),
                self.wf(),
                self0 == *old(self),
                self.chars@ == self0.chars@,
                self.idx > self0.idx,
                self.pos >= self0.pos,
                start == self0.pos,
                depth <= self.idx,
                self.idx <= self.chars@.len(),
                blen(self.chars@) < u32::MAX,
                self.chars@.len() <= blen(self.chars@),
                diags == old(diags),
                diags.wf(),
            decreases self.remaining(),
        {
            proof {
                lemma_len_le_blen(self.chars@);
            }
            match self.bump() {
                Some(c) => {
                    if c == '/' && self.peek() == Some('*') {
                        self.bump();
                        depth = depth + 1;
                    } else if c == '*' && self.peek() == Some('/') {
                        self.bump();
                        depth = depth - 1;
                    }
                },
                None => {
                    let sp = self.span_from(start);
                    let d = Diagnostic::error(DiagCode::UnterminatedComment, "unterminated block comment")
                        .with_primary(sp, "comment starts here")
                        .with_help("add a closing `*/`");
                    let ghost before = diags.spec_items();
                    diags.emit(d);
                    proof {
                        lemma_diag_codes_push(before, d);
                    }
                    return;
                },
            }
        }
    }

    // ---- token dispatch ----
    /// Scans one token whose first char is `ch`. Returns `None` only when the
    /// input was an unrecoverable single character (already reported).
    fn scan_token(&mut self, ch: char, start: usize, diags: &mut Diagnostics) -> (t: Option<Token>)
        requires
            old(self).wf(),
            old(self).idx < old(self).chars@.len(),
            old(self).chars@[old(self).idx as int] == ch,
            start == old(self).pos,
            old(diags).wf(),
        ensures
            final(self).wf(),
            final(self).chars@ == old(self).chars@,
            final(self).idx > old(self).idx,
            final(diags).wf(),
            extends(old(diags).spec_items(), final(diags).spec_items()),
            t matches Some(tok) ==> tok.span.lo == start && tok.span.hi == final(self).pos
                && tok.kind != TokenKind::Eof && token_payload_ok(tok.kind),
            final(self).pos >= old(self).pos,
            ({
                let r = token_at(old(self).chars@, old(self).idx as int);
                &&& r.0 == match t {
                    Some(tok) => Some(lexeme_of(tok.kind)),
                    None => None::<Lexeme>,
                }
                &&& final(self).idx == r.1
                &&& diag_codes(final(diags).spec_items()) == diag_codes(old(diags).spec_items()) + r.2
            }),
    {
        proof {
            assert(diag_codes(diags.spec_items()) + seq![] =~= diag_codes(diags.spec_items()));
        }
        if is_digit(ch) {
            return Some(self.scan_number(start, diags));
        }
        if is_ident_start(ch) {
            return Some(self.scan_ident(start));
        }
        if ch == '"' {
            return Some(self.scan_string(start, diags));
        }
        self.scan_symbol(ch, start, diags)
    }

    /// Scans punctuation/operators, choosing the longest match (`==` over `=`).
    fn scan_symbol(&mut self, ch: char, start: usize, diags: &mut Diagnostics) -> (t: Option<Token>)
        requires
            old(self).wf(),
            old(self).idx < old(self).chars@.len(),
            old(self).chars@[old(self).idx as int] == ch,
            start == old(self).pos,
            old(diags).wf(),
        ensures
            final(self).wf(),
            final(self).chars@ == old(self).chars@,
            final(self).idx > old(self).idx,
            final(diags).wf(),
            extends(old(diags).spec_items(), final(diags).spec_items()),
            t matches Some(tok) ==> tok.span.lo == start && tok.span.hi == final(self).pos
                && tok.kind != TokenKind::Eof && token_payload_ok(tok.kind),
            final(self).pos >= old(self).pos,
            ({
                let r = symbol(old(self).chars@, old(self).idx as int);
                &&& r.0 == match t {
                    Some(tok) => Some(tok.kind),
                    None => None::<TokenKind>,
                }
                &&& final(self).idx == r.1
                &&& r.0 is Some ==> final(diags).spec_items() == old(diags).spec_items()
                &&& r.0 is None ==> diag_codes(final(diags).spec_items()) == diag_codes(
                    old(diags).spec_items(),
                ).push(DiagCode::UnexpectedChar)
            }),
    {
        self.bump();
        let kind = if ch == '+' {
            if self.eat('=') { TokenKind::PlusEq } else { TokenKind::Plus }
        } else if ch == '-' {
            if self.eat('>') { TokenKind::Arrow } else if self.eat('=') { TokenKind::MinusEq } else { TokenKind::Minus }
        } else if ch == '*' {
            if self.eat('=') { TokenKind::StarEq } else { TokenKind::Star }
        } else if ch == '/' {
            if self.eat('=') { TokenKind::SlashEq } else { TokenKind::Slash }
        } else if ch == '%' {
            if self.eat('=') { TokenKind::PercentEq } else { TokenKind::Percent }
        } else if ch == '=' {
            if self.eat('=') { TokenKind::EqEq } else if self.eat('>') { TokenKind::FatArrow } else { TokenKind::Eq }
        } else if ch == '!' {
            if self.eat('=') { TokenKind::BangEq } else { TokenKind::Bang }
        } else if ch == '<' {
            if self.eat('=') { TokenKind::LtEq } else { TokenKind::Lt }
        } else if ch == '>' {
            if self.eat('=') { TokenKind::GtEq } else { TokenKind::Gt }
        } else if ch == '&' && self.eat('&') {
            TokenKind::AmpAmp
        } else if ch == '|' && self.eat('|') {
            TokenKind::PipePipe
        } else if ch == '.' {
            if self.eat('.') { TokenKind::DotDot } else { TokenKind::Dot }
        } else if ch == '(' {
            TokenKind::LParen
        } else if ch == ')' {
            TokenKind::RParen
        } else if ch == '{' {
            TokenKind::LBrace
        } else if ch == '}' {
            TokenKind::RBrace
        } else if ch == '[' {
            TokenKind::LBracket
        } else if ch == ']' {
            TokenKind::RBracket
        } else if ch == ',' {
            TokenKind::Comma
        } else if ch == ';' {
            TokenKind::Semi
        } else if ch == ':' {
            TokenKind::Colon
        } else {
            let mut msg = "unexpected character `".to_owned();
            push_char(&mut msg, ch);
            push_char(&mut msg, '`');
            let sp = self.span_from(start);
            let d = Diagnostic::error(DiagCode::UnexpectedChar, msg.as_str()).with_primary(
                sp,
                "not part of any token",
            );
            let ghost before = diags.spec_items();
            diags.emit(d);
            proof {
                lemma_diag_codes_push(before, d);
            }
            return None;
        };
        let sp = self.span_from(start);
        Some(Token::new(kind, sp))
    }

    /// The characters from char index `from` up to the cursor, as a string.
    fn text_from(&self, from: usize) -> (s: String)
        requires
            self.wf(),
            from <= self.idx,
        ensures
            s@ == self.chars@.subrange(from as int, self.idx as int),
    {
        let mut s = String::new();
        let mut k = from;
        while k < self.idx
            invariant
                self.wf(),
                from <= k <= self.idx,
                s@ == self.chars@.subrange(from as int, k as int),
            decreases self.idx - k,
        {
            push_char(&mut s, self.chars[k]);
            proof {
                assert(self.chars@.subrange(from as int, k + 1) =~= self.chars@.subrange(from as int, k as int).push(self.chars@[k as int]));
            }
            k = k + 1;
        }
        s
    }

    /// Scans an integer or float literal beginning with an ASCII digit.
    fn scan_number(&mut self, start: usize, diags: &mut Diagnostics) -> (t: Token)
        requires
            old(self).wf(),
            old(self).idx < old(self).chars@.len(),
            '0' <= old(self).chars@[old(self).idx as int] <= '9',
            start == old(self).pos,
            old(diags).wf(),
        ensures
            final(self).wf(),
            final(self).chars@ == old(self).chars@,
            final(self).idx > old(self).idx,
            final(diags).wf(),
            extends(old(diags).spec_items(), final(diags).spec_items()),
            t.span.lo == start && t.span.hi == final(self).pos,
            t.kind != TokenKind::Eof && token_payload_ok(t.kind),
            final(self).pos >= old(self).pos,
            ({
                let r = number(old(self).chars@, old(self).idx as int);
                &&& lexeme_of(t.kind) == r.0
                &&& final(self).idx == r.1
                &&& diag_codes(final(diags).spec_items()) == diag_codes(old(diags).spec_items()) + r.2
            }),
    {
        let ghost self0 = *self;
        let ghost cs = self.chars@;
        let first = self.idx;
        // Accumulate the integer value, noting overflow.
        let mut value: i64 = 0;
        let mut overflow = false;
        while self.idx < self.chars.len() && is_digit(self.chars[self.idx])
            invariant
                self.wf(),
                self0 == *old(self),
                self.chars@ == self0.chars@,
                self.idx >= self0.idx,
                self.pos >= self0.pos,
                first == self0.idx,
                value >= 0,
                cs == self0.chars@,
                digits_end(cs, self.idx as int) == digits_end(cs, first as int),
                !overflow ==> value == digits_value(cs.subrange(first as int, self.idx as int)),
                overflow ==> digits_value(cs.subrange(first as int, self.idx as int)) > i64::MAX,
            decreases self.remaining(),
        {
            let d = self.chars[self.idx];
            let dv: i64 = if d == '0' { 0 } else if d == '1' { 1 } else if d == '2' { 2 } else if d == '3' { 3 }
                else if d == '4' { 4 } else if d == '5' { 5 } else if d == '6' { 6 } else if d == '7' { 7 }
                else if d == '8' { 8 } else { 9 };
            let ghost k = self.idx as int;
            let ghost old_value = value;
            let ghost prev = digits_value(cs.subrange(first as int, k));
            proof {
                assert(dv == d as int - '0' as int);
                let s = cs.subrange(first as int, k + 1);
                assert(s.drop_last() =~= cs.subrange(first as int, k));
                assert(s.last() == d);
                assert(digits_value(s) == prev * 10 + dv);
            }
            if !overflow {
                if value > (i64::MAX - dv) / 10 {
                    overflow = true;
                    proof {
                        assert(value * 10 + dv > i64::MAX) by (nonlinear_arith)
                            requires
                                value > (i64::MAX - dv) / 10,
                                0 <= dv <= 9,
                        ;
                    }
                } else {
                    proof {
                        assert(value * 10 + dv <= i64::MAX) by (nonlinear_arith)
                            requires
                                value <= (i64::MAX - dv) / 10,
                                0 <= dv <= 9,
                                value >= 0,
                        ;
                    }
                    value = value * 10 + dv;
                }
            } else {
                proof {
                    assert(prev * 10 + dv > i64::MAX) by (nonlinear_arith)
                        requires
                            prev > i64::MAX,
                            0 <= dv <= 9,
                    ;
                }
            }
            self.bump();
        }
        let ghost e = self.idx as int;
        // A float requires a `.` followed by a digit, so `1..2` is a range.
        let is_float = self.peek() == Some('.') && match self.peek2() {
            Some(c) => is_digit(c),
            None => false,
        };
        if is_float {
            self.bump();
            while self.idx < self.chars.len() && is_digit(self.chars[self.idx])
                invariant
                    self.wf(),
                    self.chars@ == self0.chars@,
                    self.idx > self0.idx,
                    self.pos >= self0.pos,
                    first == self0.idx,
                    cs == self0.chars@,
                    digits_end(cs, self.idx as int) == digits_end(cs, e + 1),
                decreases self.remaining(),
            {
                self.bump();
            }
        }
        let span = self.span_from(start);
        let kind = if is_float {
            TokenKind::Float(self.text_from(first))
        } else if overflow {
            let text = self.text_from(first);
            self.bad_number(text.as_str(), span, diags)
        } else {
            TokenKind::Int(value)
        };
        proof {
            assert(diags.spec_items().take(old(diags).spec_items().len() as int) =~= old(diags).spec_items()) by {
                if !(!is_float && overflow) {
                    assert(diags.spec_items() == old(diags).spec_items());
                }
            }
            if !(!is_float && overflow) {
                assert(diag_codes(diags.spec_items()) + seq![] =~= diag_codes(old(diags).spec_items()));
            } else {
                assert(diags.spec_items() =~= old(diags).spec_items().push(diags.spec_items().last()));
                lemma_diag_codes_push(old(diags).spec_items(), diags.spec_items().last());
                assert(diag_codes(diags.spec_items()) =~= diag_codes(old(diags).spec_items()) + seq![
                    DiagCode::InvalidNumber,
                ]);
            }
        }
        Token::new(kind, span)
    }

    /// Reports an unparseable numeric literal and substitutes a zero so that
    /// later phases can proceed.
    fn bad_number(&self, text: &str, span: Span, diags: &mut Diagnostics) -> (k: TokenKind)
        requires
            old(diags).wf(),
        ensures
            k == TokenKind::Int(0),
            final(diags).wf(),
            final(diags).spec_items().len() == old(diags).spec_items().len() + 1,
            final(diags).spec_items().drop_last() == old(diags).spec_items(),
            final(diags).spec_items().last().code == DiagCode::InvalidNumber,
    {
        let msg = cat3("invalid numeric literal `", text, "`");
        diags.emit(
            Diagnostic::error(DiagCode::InvalidNumber, msg.as_str())
                .with_primary(span, "does not fit in a 64-bit number")
                .with_note("integer literals must be in the range of a signed 64-bit integer"),
        );
        TokenKind::Int(0)
    }

    /// Scans an identifier or keyword.
    fn scan_ident(&mut self, start: usize) -> (t: Token)
        requires
            old(self).wf(),
            old(self).idx < old(self).chars@.len(),
            spec_ident_start(old(self).chars@[old(self).idx as int]),
            start == old(self).pos,
        ensures
            final(self).wf(),
            final(self).chars@ == old(self).chars@,
            final(self).idx > old(self).idx,
            t.span.lo == start && t.span.hi == final(self).pos,
            t.kind != TokenKind::Eof && token_payload_ok(t.kind),
            final(self).pos >= old(self).pos,
            lexeme_of(t.kind) == ident(old(self).chars@, old(self).idx as int).0,
            final(self).idx == ident(old(self).chars@, old(self).idx as int).1,
    {
        let ghost self0 = *self;
        let first = self.idx;
        self.bump();
        while self.idx < self.chars.len() && is_ident_continue(self.chars[self.idx])
            invariant
                ident_end(self.chars@, self.idx as int) == ident_end(self0.chars@, self0.idx + 1),
                self.wf(),
                self0 == *old(self),
                self.chars@ == self0.chars@,
                self.idx > self0.idx,
                self.pos >= self0.pos,
                first == self0.idx,
                spec_ident_start(self.chars@[first as int]),
                forall|q: int| first <= q < self.idx ==> spec_ident_continue(#[trigger] self.chars@[q]),
            decreases self.remaining(),
        {
            self.bump();
        }
        let span = self.span_from(start);
        let text = self.text_from(first);
        let kind = match TokenKind::keyword(text.as_str()) {
            Some(k) => k,
            None => TokenKind::Ident(text),
        };
        proof {
            assert forall|q: int| 0 <= q < text@.len() implies spec_ident_continue(#[trigger] text@[q]) by {
                assert(text@[q] == self.chars@[first + q]);
            }
        }
        Token::new(kind, span)
    }

    /// Scans a double-quoted string literal, resolving escape sequences.
    ///
    /// On an unterminated string the partial value is returned with a
    /// diagnostic; on an unknown escape the escaped character is kept and a
    /// diagnostic is emitted. Either way a usable token is produced.
    fn scan_string(&mut self, start: usize, diags: &mut Diagnostics) -> (t: Token)
        requires
            old(self).wf(),
            old(self).idx < old(self).chars@.len(),
            start == old(self).pos,
            old(diags).wf(),
        ensures
            final(self).wf(),
            final(self).chars@ == old(self).chars@,
            final(self).idx > old(self).idx,
            final(diags).wf(),
            extends(old(diags).spec_items(), final(diags).spec_items()),
            t.span.lo == start && t.span.hi == final(self).pos,
            t.kind != TokenKind::Eof && token_payload_ok(t.kind),
            final(self).pos >= old(self).pos,
            ({
                let r = string_body(old(self).chars@, old(self).idx + 1, seq![]);
                &&& lexeme_of(t.kind) == Lexeme::Str(r.0)
                &&& final(self).idx == r.1
                &&& diag_codes(final(diags).spec_items()) == diag_codes(old(diags).spec_items()) + r.2
            }),
    {
        let ghost self0 = *self;
        let ghost diags0 = diags.spec_items();
        let ghost cs = self.chars@;
        let ghost goal = string_body(cs, self0.idx + 1, seq![]);
        self.bump();  // opening quote
        let mut value = String::new();
        loop
            invariant_except_break
                string_body(cs, self.idx as int, value@).0 == goal.0,
                string_body(cs, self.idx as int, value@).1 == goal.1,
                diag_codes(diags.spec_items()) + string_body(cs, self.idx as int, value@).2 == diag_codes(diags0)
                    + goal.2,
            invariant
                cs == self0.chars@,
                goal == string_body(cs, self0.idx + 1, seq![]),
                self.wf(),
                self0 == *old(self),
                self.chars@ == self0.chars@,
                self.idx > self0.idx,
                self.pos >= self0.pos,
                start == self0.pos,
                diags.wf(),
                diags0 == old(diags).spec_items(),
                extends(diags0, diags.spec_items()),
            ensures
                goal.0 == value@,
                goal.1 == self.idx,
                diag_codes(diags.spec_items()) == diag_codes(diags0) + goal.2,
            decreases self.remaining(),
        {
            let ghost k = self.idx as int;
            let ghost v0 = value@;
            let ghost d0 = diags.spec_items();
            match self.bump() {
                Some(c) => {
                    if c == '"' {
                        proof {
                            assert(diag_codes(d0) + seq![] =~= diag_codes(d0));
                        }
                        break;
                    } else if c == '\\' {
                        self.scan_escape(&mut value, diags);
                        proof {
                            if k + 1 < cs.len() && escape_char(cs[k + 1]) is None {
                                let r = string_body(cs, k + 2, v0.push('\\').push(cs[k + 1]));
                                assert(diags.spec_items() =~= d0.push(diags.spec_items().last()));
                                lemma_diag_codes_push(d0, diags.spec_items().last());
                                assert(diag_codes(diags.spec_items()) + r.2 =~= diag_codes(d0) + (seq![
                                    DiagCode::InvalidEscape,
                                ] + r.2));
                            }
                        }
                    } else {
                        push_char(&mut value, c);
                    }
                },
                None => {
                    let sp = self.span_from(start);
                    let d = Diagnostic::error(DiagCode::UnterminatedString, "unterminated string literal")
                        .with_primary(sp, "string starts here")
                        .with_help("add a closing `\"`");
                    diags.emit(d);
                    proof {
                        lemma_diag_codes_push(d0, d);
                        assert(diag_codes(diags.spec_items()) =~= diag_codes(d0) + seq![
                            DiagCode::UnterminatedString,
                        ]);
                    }
                    break;
                },
            }
        }
        let sp = self.span_from(start);
        Token::new(TokenKind::Str(value), sp)
    }

    /// Handles the character following a backslash inside a string.
    fn scan_escape(&mut self, value: &mut String, diags: &mut Diagnostics)
        requires
            old(self).wf(),
            old(self).idx >= 1,
            old(diags).wf(),
        ensures
            final(self).wf(),
            final(self).chars@ == old(self).chars@,
            final(self).idx >= old(self).idx,
            final(self).pos >= old(self).pos,
            final(diags).wf(),
            extends(old(diags).spec_items(), final(diags).spec_items()),
            old(self).idx >= old(self).chars@.len() ==> *final(self) == *old(self) && final(value)@ == old(value)@
                && final(diags).spec_items() == old(diags).spec_items(),
            old(self).idx < old(self).chars@.len() ==> ({
                let c = old(self).chars@[old(self).idx as int];
                &&& final(self).idx == old(self).idx + 1
                &&& final(value)@ == match escape_char(c) {
                    Some(e) => old(value)@.push(e),
                    None => old(value)@.push('\\').push(c),
                }
                &&& escape_char(c) is Some ==> final(diags).spec_items() == old(diags).spec_items()
                &&& escape_char(c) is None ==> final(diags).spec_items().len() == old(diags).spec_items().len() + 1
                    && final(diags).spec_items().last().code == DiagCode::InvalidEscape
            }),
    {
        // The backslash is one byte, just before the cursor.
        let esc_start = self.pos - 1;
        match self.bump() {
            Some(c) => {
                if c == 'n' {
                    push_char(value, '\n');
                } else if c == 't' {
                    push_char(value, '\t');
                } else if c == 'r' {
                    push_char(value, '\r');
                } else if c == '0' {
                    push_char(value, '\0');
                } else if c == '\\' {
                    push_char(value, '\\');
                } else if c == '"' {
                    push_char(value, '"');
                } else {
                    // An unknown escape is kept verbatim, backslash included.
                    push_char(value, '\\');
                    push_char(value, c);
                    let mut msg = "unknown escape `\\".to_owned();
                    push_char(&mut msg, c);
                    push_char(&mut msg, '`');
                    let sp = self.span_from(esc_start);
                    diags.emit(
                        Diagnostic::error(DiagCode::InvalidEscape, msg.as_str())
                            .with_primary(sp, "not a valid escape")
                            .with_help("valid escapes are \\n \\t \\r \\0 \\\\ \\\""),
                    );
                    return;
                }
            },
            None => {},
        }
    }
}

/// Whether the cursor stands on trivia: white space, or the start of a
/// `//` or `/*` comment.
pub open spec fn at_trivia(chars: Seq<char>, idx: int) -> bool {
    0 <= idx < chars.len() && (spec_whitespace(chars[idx]) || (chars[idx] == '/' && idx + 1 < chars.len() && (
    chars[idx + 1] == '/' || chars[idx + 1] == '*')))
}

/// The character an escape `\c` stands for, for the escapes the language
/// knows.
pub open spec fn escape_char(c: char) -> Option<char> {
    if c == 'n' {
        Some('\n')
    } else if c == 't' {
        Some('\t')
    } else if c == 'r' {
        Some('\r')
    } else if c == '0' {
        Some('\0')
    } else if c == '\\' {
        Some('\\')
    } else if c == '"' {
        Some('"')
    } else {
        None
    }
}

/// Each character takes at least one byte.
proof fn lemma_len_le_blen(s: Seq<char>)
    ensures
        s.len() <= blen(s),
    decreases s.len(),
{
    if s.len() > 0 {
        lemma_len_le_blen(s.drop_last());
    }
}

} // verus!
