//! The parser: a hand-written recursive-descent parser with a Pratt
//! (precedence-climbing) core for expressions.
//!
//! Recursive descent mirrors the grammar one function per production.
//! Expressions use a single precedence-climbing routine ([`Parser::parse_bp`])
//! driven by a [`binding_power`] table.
//!
//! The parser reports many errors per run. On a syntax error it emits a
//! diagnostic, then resynchronises to a stable boundary (the next item at top
//! level, or the next `;`/`}` inside a block) and continues. A progress guard
//! guarantees forward motion, and every production that succeeds consumes at
//! least one token, so parsing always terminates.
//!
//! ```text
//! program  := item*
//! item     := fn | const | struct
//! block    := "{" stmt* expr? "}"
//! expr     := assign
//! assign   := or ("=" assign | op= assign)?
//! or .. mul   (precedence climbing)
//! unary    := ("-"|"!") unary | call
//! call     := primary ("(" args? ")" | "[" expr "]" | "." (int | ident))*
//! primary  := literal | ident | struct-lit | "(" ... ")" | "[" ... "]" | block | if | match
//! ```

pub mod ast;
pub mod print;

use vstd::prelude::*;
use vstd::string::*;

use ast::{
    Ast, BinOp, Block, ConstDecl, Expr, ExprKind, FieldDef, FieldInit, FnDecl, ForEachStmt, ForStmt,
    Ident, IfExpr, Item, ItemKind, LetStmt, MatchArm, MatchExpr, NodeId, NodeIdGen, Param, Pattern,
    Stmt, StmtKind, StructDecl, TypeExpr, TypeExprKind, UnOp, WhileStmt, binop_text,
};

use crate::diagnostics::{Diagnostic, Diagnostics, Severity};
use crate::errors::DiagCode;
use crate::lexer::token::{kind_tag, symbol_text};
use crate::lexer::{extends, token_payload_ok, Token, TokenKind};
use crate::span::Span;
use crate::text::{cat3, str_eq};

verus! {

/// What the parser needs of its input: a token stream that ends with the only
/// `Eof`, with well-formed spans and lexer-produced payloads.
pub open spec fn parser_input_ok(toks: Seq<Token>) -> bool {
    &&& toks.len() >= 1
    &&& toks.last().kind == TokenKind::Eof
    &&& forall|i: int| 0 <= i < toks.len() - 1 ==> (#[trigger] toks[i]).kind != TokenKind::Eof
    &&& forall|i: int| 0 <= i < toks.len() ==> (#[trigger] toks[i]).span.wf()
    &&& forall|i: int| 0 <= i < toks.len() ==> token_payload_ok(#[trigger] toks[i].kind)
}

/// Every token stream the lexer produces is acceptable parser input.
pub proof fn lemma_lexer_output_parses(toks: Seq<Token>, len: nat)
    requires
        crate::lexer::well_formed_tokens(toks, len),
    ensures
        parser_input_ok(toks),
{
}

/// Parses a token stream into an [`Ast`], reporting syntax errors into `diags`.
pub fn parse(tokens: Vec<Token>, diags: &mut Diagnostics) -> (a: Ast)
    requires
        parser_input_ok(tokens@),
        old(diags).wf(),
    ensures
        final(diags).wf(),
        extends(old(diags).spec_items(), final(diags).spec_items()),
        tokens@.len() == 1 ==> a.items@.len() == 0 && final(diags).spec_items() == old(diags).spec_items(),
        tokens@.len() > 1 ==> a.items@.len() > 0 || final(diags).spec_items().len() > old(diags).spec_items().len(),
{
    let mut parser = Parser {
        tokens,
        pos: 0,
        ids: NodeIdGen::new(),
        diags: Diagnostics::new(),
        struct_ok: true,
    };
    std::mem::swap(&mut parser.diags, diags);
    let a = parser.parse_program();
    std::mem::swap(&mut parser.diags, diags);
    a
}

struct Parser {
    tokens: Vec<Token>,
    pos: usize,
    ids: NodeIdGen,
    diags: Diagnostics,
    /// Whether a `Name { ... }` may currently be parsed as a struct literal.
    /// Disabled while parsing `if`/`while` conditions and `for` bounds, where a
    /// trailing `{` instead begins the body.
    struct_ok: bool,
}

/// One element parsed from inside a block: a statement, the block's trailing
/// value expression, or a recovered error.
enum BlockElem {
    Stmt(Stmt),
    Tail(Expr),
    Error,
}

/// Whether an expression may start with a token of this kind.
pub open spec fn starts_primary(k: TokenKind) -> bool {
    k is Int || k is Float || k is Str || k is True || k is False || k is Ident || k is LParen || k is LBrace
        || k is If || k is Match || k is LBracket
}

/// The pattern that starts at token `i`, if one does: an integer (with an
/// optional leading `-`), `true`, `false` or `_`.
pub open spec fn pattern_at(toks: Seq<Token>, i: int) -> Option<Pattern> {
    match toks[i].kind {
        TokenKind::Int(v) => Some(Pattern::Int(v)),
        TokenKind::Minus => match toks[i + 1].kind {
            TokenKind::Int(v) => Some(Pattern::Int((-v) as i64)),
            _ => None,
        },
        TokenKind::True => Some(Pattern::Bool(true)),
        TokenKind::False => Some(Pattern::Bool(false)),
        TokenKind::Ident(name) => if name@ == "_"@ {
            Some(Pattern::Wild)
        } else {
            None
        },
        _ => None,
    }
}

/// At least one diagnostic was reported between `a` and `b`.
spec fn reported(a: Parser, b: Parser) -> bool {
    b.diags.spec_items().len() > a.diags.spec_items().len()
}

/// The parser state moved forward from `a` to `b`: same input, cursor not
/// moved back, diagnostics only appended, struct-literal mode unchanged.
spec fn moved(a: Parser, b: Parser) -> bool {
    &&& b.wf()
    &&& b.tokens@ == a.tokens@
    &&& b.pos >= a.pos
    &&& extends(a.diags.spec_items(), b.diags.spec_items())
    &&& b.struct_ok == a.struct_ok
}

/// The binary operator of a compound-assignment token (`+=` is `+`, ...).
pub open spec fn compound_op_of(kind: TokenKind) -> Option<BinOp> {
    match kind {
        TokenKind::PlusEq => Some(BinOp::Add),
        TokenKind::MinusEq => Some(BinOp::Sub),
        TokenKind::StarEq => Some(BinOp::Mul),
        TokenKind::SlashEq => Some(BinOp::Div),
        TokenKind::PercentEq => Some(BinOp::Rem),
        _ => None,
    }
}

/// The binary operator a token introduces, if any.
pub open spec fn binop_of(kind: TokenKind) -> Option<BinOp> {
    match kind {
        TokenKind::PipePipe => Some(BinOp::Or),
        TokenKind::AmpAmp => Some(BinOp::And),
        TokenKind::EqEq => Some(BinOp::Eq),
        TokenKind::BangEq => Some(BinOp::Ne),
        TokenKind::Lt => Some(BinOp::Lt),
        TokenKind::LtEq => Some(BinOp::Le),
        TokenKind::Gt => Some(BinOp::Gt),
        TokenKind::GtEq => Some(BinOp::Ge),
        TokenKind::Plus => Some(BinOp::Add),
        TokenKind::Minus => Some(BinOp::Sub),
        TokenKind::Star => Some(BinOp::Mul),
        TokenKind::Slash => Some(BinOp::Div),
        TokenKind::Percent => Some(BinOp::Rem),
        _ => None,
    }
}

/// The operator a token introduces is the one the token spells: `>=` is
/// greater-or-equal, `<` is less-than, and so on; a compound assignment
/// `op=` applies the operator `op`.
pub proof fn lemma_operator_tokens_spell_their_operator(k: TokenKind)
    ensures
        binop_of(k) matches Some(op) ==> binop_text(op) == symbol_text(k),
        compound_op_of(k) matches Some(op) ==> binop_text(op) + "="@ == symbol_text(k),
{
    reveal_strlit("+");
    reveal_strlit("-");
    reveal_strlit("*");
    reveal_strlit("/");
    reveal_strlit("%");
    reveal_strlit("=");
    reveal_strlit("+=");
    reveal_strlit("-=");
    reveal_strlit("*=");
    reveal_strlit("/=");
    reveal_strlit("%=");
    if compound_op_of(k) is Some {
        assert(binop_text(compound_op_of(k)->0) + "="@ =~= symbol_text(k));
    }
}

/// Maps a compound-assignment token (`+=` ...) to its underlying binary operator.
fn compound_assign_op(kind: &TokenKind) -> (r: Option<BinOp>)
    ensures
        r == compound_op_of(*kind),
{
    match kind {
        TokenKind::PlusEq => Some(BinOp::Add),
        TokenKind::MinusEq => Some(BinOp::Sub),
        TokenKind::StarEq => Some(BinOp::Mul),
        TokenKind::SlashEq => Some(BinOp::Div),
        TokenKind::PercentEq => Some(BinOp::Rem),
        _ => None,
    }
}

/// Maps a token to the binary operator it introduces, if any.
fn peek_binop(kind: &TokenKind) -> (r: Option<BinOp>)
    ensures
        r == binop_of(*kind),
{
    match kind {
        TokenKind::PipePipe => Some(BinOp::Or),
        TokenKind::AmpAmp => Some(BinOp::And),
        TokenKind::EqEq => Some(BinOp::Eq),
        TokenKind::BangEq => Some(BinOp::Ne),
        TokenKind::Lt => Some(BinOp::Lt),
        TokenKind::LtEq => Some(BinOp::Le),
        TokenKind::Gt => Some(BinOp::Gt),
        TokenKind::GtEq => Some(BinOp::Ge),
        TokenKind::Plus => Some(BinOp::Add),
        TokenKind::Minus => Some(BinOp::Sub),
        TokenKind::Star => Some(BinOp::Mul),
        TokenKind::Slash => Some(BinOp::Div),
        TokenKind::Percent => Some(BinOp::Rem),
        _ => None,
    }
}

/// The precedence level of a binary operator; higher binds tighter.
pub open spec fn binop_level(op: BinOp) -> u8 {
    match op {
        BinOp::Or => 1,
        BinOp::And => 2,
        BinOp::Eq | BinOp::Ne => 3,
        BinOp::Lt | BinOp::Le | BinOp::Gt | BinOp::Ge => 4,
        BinOp::Add | BinOp::Sub => 5,
        BinOp::Mul | BinOp::Div | BinOp::Rem => 6,
    }
}

/// The (left, right) binding powers of a binary operator. All operators are
/// left-associative, encoded as `left < right`.
pub fn binding_power(op: BinOp) -> (r: (u8, u8))
    ensures
        r.0 == 2 * binop_level(op),
        r.1 == 2 * binop_level(op) + 1,
{
    let level: u8 = match op {
        BinOp::Or => 1,
        BinOp::And => 2,
        BinOp::Eq | BinOp::Ne => 3,
        BinOp::Lt | BinOp::Le | BinOp::Gt | BinOp::Ge => 4,
        BinOp::Add | BinOp::Sub => 5,
        BinOp::Mul | BinOp::Div | BinOp::Rem => 6,
    };
    (level * 2, level * 2 + 1)
}

impl Parser {
    spec fn wf(&self) -> bool {
        &&& parser_input_ok(self.tokens@)
        &&& self.pos < self.tokens@.len()
        &&& self.diags.wf()
    }

    spec fn rem(&self) -> int {
        self.tokens@.len() - self.pos
    }

    spec fn cur_kind(&self) -> TokenKind {
        self.tokens@[self.pos as int].kind
    }

    // ---- token cursor ----
    /// The kind of the token `n` positions ahead of the cursor (the final
    /// `Eof` when that is past the end).
    fn nth_kind(&self, n: usize) -> (k: &TokenKind)
        requires
            self.wf(),
        ensures
            self.pos + n < self.tokens@.len() ==> *k == self.tokens@[self.pos + n].kind,
            self.pos + n >= self.tokens@.len() ==> *k == self.tokens@.last().kind,
    {
        let last = self.tokens.len() - 1;
        let idx = if n <= last - self.pos { self.pos + n } else { last };
        &self.tokens[idx].kind
    }

    fn kind(&self) -> (k: &TokenKind)
        requires
            self.wf(),
        ensures
            *k == self.cur_kind(),
    {
        &self.tokens[self.pos].kind
    }

    fn span(&self) -> (s: Span)
        requires
            self.wf(),
        ensures
            s == self.tokens@[self.pos as int].span,
            s.wf(),
    {
        self.tokens[self.pos].span
    }

    fn at_eof(&self) -> (b: bool)
        requires
            self.wf(),
        ensures
            b == (self.cur_kind() is Eof),
            b == (self.pos == self.tokens@.len() - 1),
    {
        matches!(self.tokens[self.pos].kind, TokenKind::Eof)
    }

    /// Whether the current token is the same variant as `k`.
    fn at(&self, k: &TokenKind) -> (b: bool)
        requires
            self.wf(),
        ensures
            b == (kind_tag(self.cur_kind()) == kind_tag(*k)),
    {
        self.tokens[self.pos].kind.same_kind(k)
    }

    /// Consumes the current token (stopping at `Eof`) and returns its span.
    fn bump(&mut self) -> (s: Span)
        requires
            old(self).wf(),
        ensures
            moved(*old(self), *final(self)),
            final(self).diags == old(self).diags,
            final(self).ids == old(self).ids,
            s == old(self).tokens@[old(self).pos as int].span,
            s.wf(),
            !(old(self).cur_kind() is Eof) ==> final(self).pos == old(self).pos + 1,
            old(self).cur_kind() is Eof ==> final(self).pos == old(self).pos,
    {
        let s = self.tokens[self.pos].span;
        let last = self.tokens.len() - 1;
        if self.pos < last {
            self.pos = self.pos + 1;
        }
        s
    }

    /// Consumes the current token if it matches `k`.
    fn eat(&mut self, k: &TokenKind) -> (r: Option<Span>)
        requires
            old(self).wf(),
            !(k is Eof),
        ensures
            moved(*old(self), *final(self)),
            final(self).diags == old(self).diags,
            final(self).ids == old(self).ids,
            r is Some <==> kind_tag(old(self).cur_kind()) == kind_tag(*k),
            r is Some ==> final(self).pos == old(self).pos + 1,
            r is None ==> final(self).pos == old(self).pos,
            r matches Some(s) ==> s.wf(),
    {
        if self.at(k) {
            Some(self.bump())
        } else {
            None
        }
    }

    /// Consumes a token of kind `k`, or reports "expected ..., found ...".
    fn expect(&mut self, k: &TokenKind) -> (r: Option<Span>)
        requires
            old(self).wf(),
            !(k is Eof),
        ensures
            moved(*old(self), *final(self)),
            final(self).ids == old(self).ids,
            r is Some <==> kind_tag(old(self).cur_kind()) == kind_tag(*k),
            r is Some ==> final(self).pos == old(self).pos + 1 && final(self).diags == old(self).diags,
            r is None ==> final(self).pos == old(self).pos && reported(*old(self), *final(self)),
            r matches Some(s) ==> s.wf() && s == old(self).tokens@[old(self).pos as int].span,
    {
        if self.at(k) {
            Some(self.bump())
        } else {
            let what = k.describe();
            self.error_expected(what.as_str());
            None
        }
    }

    fn fresh_id(&mut self) -> (id: NodeId)
        requires
            old(self).wf(),
        ensures
            moved(*old(self), *final(self)),
            final(self).pos == old(self).pos,
    {
        self.ids.fresh()
    }

    fn mk_expr(&mut self, kind: ExprKind, span: Span) -> (e: Expr)
        requires
            old(self).wf(),
            span.wf(),
        ensures
            moved(*old(self), *final(self)),
            final(self).pos == old(self).pos,
            e.span == span,
            e.kind == kind,
    {
        let id = self.fresh_id();
        Expr { id, kind, span }
    }

    // ---- diagnostics ----
    fn error_expected(&mut self, what: &str)
        requires
            old(self).wf(),
        ensures
            moved(*old(self), *final(self)),
            final(self).pos == old(self).pos,
            final(self).ids == old(self).ids,
            final(self).diags.spec_items().len() == old(self).diags.spec_items().len() + 1,
            final(self).diags.spec_items().last().severity == Severity::Error,
            final(self).diags.spec_items().last().code == (if old(self).cur_kind() is Eof {
                DiagCode::UnexpectedEof
            } else {
                DiagCode::UnexpectedToken
            }),
            final(self).diags.spec_items().last().labels@.len() == 1,
            final(self).diags.spec_items().last().labels@[0].span == old(self).tokens@[old(self).pos as int].span,
    {
        let span = self.span();
        let label = cat3("expected ", what, "");
        let ghost d0 = self.diags.spec_items();
        if self.at_eof() {
            let headline = cat3("expected ", what, ", found end of file");
            self.diags.emit(
                Diagnostic::error(DiagCode::UnexpectedEof, headline.as_str()).with_primary(
                    span,
                    label.as_str(),
                ),
            );
        } else {
            let found = self.kind().describe();
            let headline = cat3(label.as_str(), ", found ", found.as_str());
            self.diags.emit(
                Diagnostic::error(DiagCode::UnexpectedToken, headline.as_str()).with_primary(
                    span,
                    label.as_str(),
                ),
            );
        }
    }

    // ---- program / items ----
    fn parse_program(&mut self) -> (a: Ast)
        requires
            old(self).wf(),
        ensures
            moved(*old(self), *final(self)),
            final(self).pos == final(self).tokens@.len() - 1,
            old(self).cur_kind() is Eof ==> a.items@.len() == 0 && final(self).diags == old(self).diags,
            !(old(self).cur_kind() is Eof) ==> a.items@.len() > 0 || reported(*old(self), *final(self)),
    {
        let mut items: Vec<Item> = Vec::new();
        while !self.at_eof()
            invariant
                moved(*old(self), *self),
                old(self).cur_kind() is Eof ==> items@.len() == 0 && self.diags == old(self).diags,
                self.pos > old(self).pos ==> items@.len() > 0 || reported(*old(self), *self),
            decreases self.rem(),
        {
            let before = self.pos;
            match self.parse_item() {
                Some(item) => items.push(item),
                None => {
                    self.recover_to_item();
                    // Guarantee progress even if recovery found nothing to skip.
                    if self.pos == before && !self.at_eof() {
                        self.bump();
                    }
                },
            }
        }
        Ast { items }
    }

    fn parse_item(&mut self) -> (r: Option<Item>)
        requires
            old(self).wf(),
        ensures
            !(old(self).cur_kind() is Fn || old(self).cur_kind() is Const || old(self).cur_kind() is Struct) ==> r is None
                && final(self).pos == old(self).pos,
            moved(*old(self), *final(self)),
            r is Some ==> final(self).pos > old(self).pos,
            r is None ==> reported(*old(self), *final(self)),
    {
        match self.kind() {
            TokenKind::Fn => self.parse_fn(),
            TokenKind::Const => self.parse_const_item(),
            TokenKind::Struct => self.parse_struct_item(),
            _ => {
                self.error_expected("an item (`fn`, `const`, or `struct`)");
                None
            },
        }
    }

    fn parse_struct_item(&mut self) -> (r: Option<Item>)
        requires
            old(self).wf(),
            old(self).cur_kind() is Struct,
        ensures
            r matches Some(it) ==> it.kind is Struct,
            moved(*old(self), *final(self)),
            r is Some ==> final(self).pos > old(self).pos,
            r is None ==> reported(*old(self), *final(self)),
    {
        let start = self.span();
        self.bump();  // `struct`
        let name = self.parse_ident()?;
        self.expect(&TokenKind::LBrace)?;
        let mut fields: Vec<FieldDef> = Vec::new();
        while !self.at(&TokenKind::RBrace) && !self.at_eof()
            invariant
                moved(*old(self), *self),
                self.pos > old(self).pos,
            decreases self.rem(),
        {
            let field_name = self.parse_ident()?;
            self.expect(&TokenKind::Colon)?;
            let ty = self.parse_type();
            let span = field_name.span.to(ty.span);
            fields.push(FieldDef { name: field_name, ty, span });
            if self.eat(&TokenKind::Comma).is_none() {
                break;
            }
        }
        let close = self.expect(&TokenKind::RBrace)?;
        let span = start.to(close);
        let id = self.fresh_id();
        let sid = self.fresh_id();
        Some(Item { id, kind: ItemKind::Struct(StructDecl { id: sid, name, fields }), span })
    }

    fn parse_const_item(&mut self) -> (r: Option<Item>)
        requires
            old(self).wf(),
            old(self).cur_kind() is Const,
        ensures
            r matches Some(it) ==> it.kind is Const,
            moved(*old(self), *final(self)),
            r is Some ==> final(self).pos > old(self).pos,
            r is None ==> reported(*old(self), *final(self)),
    {
        let start = self.span();
        self.bump();  // `const`
        let name = self.parse_ident()?;
        self.expect(&TokenKind::Colon)?;
        let ty = self.parse_type();
        self.expect(&TokenKind::Eq)?;
        let value = self.parse_expr()?;
        let semi = self.expect(&TokenKind::Semi)?;
        let span = start.to(semi);
        let id = self.fresh_id();
        let cid = self.fresh_id();
        Some(Item { id, kind: ItemKind::Const(ConstDecl { id: cid, name, ty, value }), span })
    }

    fn parse_fn(&mut self) -> (r: Option<Item>)
        requires
            old(self).wf(),
            old(self).cur_kind() is Fn,
        ensures
            r matches Some(it) ==> it.kind is Fn,
            moved(*old(self), *final(self)),
            r is Some ==> final(self).pos > old(self).pos,
            r is None ==> reported(*old(self), *final(self)),
    {
        let start = self.span();
        self.bump();  // `fn`
        let name = self.parse_ident()?;
        self.expect(&TokenKind::LParen)?;
        let params = self.parse_params()?;
        self.expect(&TokenKind::RParen)?;
        let ret = if self.eat(&TokenKind::Arrow).is_some() {
            Some(self.parse_type())
        } else {
            None
        };
        let body = self.parse_block()?;
        let span = start.to(body.span);
        let id = self.fresh_id();
        Some(Item { id, kind: ItemKind::Fn(FnDecl { name, params, ret, body }), span })
    }

    fn parse_params(&mut self) -> (r: Option<Vec<Param>>)
        requires
            old(self).wf(),
        ensures
            moved(*old(self), *final(self)),
            r is None ==> reported(*old(self), *final(self)),
            old(self).cur_kind() is RParen ==> (r matches Some(ps) && ps@.len() == 0 && final(self).pos == old(self).pos),
            r matches Some(ps) ==> ps@.len() == 0 || final(self).pos > old(self).pos,
    {
        let mut params: Vec<Param> = Vec::new();
        while !self.at(&TokenKind::RParen) && !self.at_eof()
            invariant
                moved(*old(self), *self),
                old(self).cur_kind() is RParen ==> self.pos == old(self).pos && params@.len() == 0,
                params@.len() == 0 || self.pos > old(self).pos,
            decreases self.rem(),
        {
            let name = self.parse_ident()?;
            self.expect(&TokenKind::Colon)?;
            let ty = self.parse_type();
            let span = name.span.to(ty.span);
            let id = self.fresh_id();
            params.push(Param { id, name, ty, span });
            if self.eat(&TokenKind::Comma).is_none() {
                break;
            }
        }
        Some(params)
    }

    fn parse_ident(&mut self) -> (r: Option<Ident>)
        requires
            old(self).wf(),
        ensures
            moved(*old(self), *final(self)),
            r is Some <==> old(self).cur_kind() is Ident,
            r is Some ==> final(self).pos == old(self).pos + 1 && final(self).diags == old(self).diags,
            r is None ==> final(self).pos == old(self).pos && reported(*old(self), *final(self)),
            r matches Some(id) ==> id.span.wf() && id.span == old(self).tokens@[old(self).pos as int].span
                && (old(self).cur_kind() matches TokenKind::Ident(n) && n@ == id.name@),
    {
        if let TokenKind::Ident(name) = self.kind() {
            let name = name.clone();
            let span = self.span();
            self.bump();
            Some(Ident { name, span })
        } else {
            self.error_expected("an identifier");
            None
        }
    }

    /// Parses a type annotation. Never fails: on a malformed type it reports an
    /// error and yields a [`TypeExprKind::Error`] placeholder.
    fn parse_type(&mut self) -> (t: TypeExpr)
        requires
            old(self).wf(),
        ensures
            moved(*old(self), *final(self)),
            t.span.wf(),
            (old(self).cur_kind() matches TokenKind::Ident(n)) ==> (t.kind matches TypeExprKind::Named(m) && m@
                == old(self).cur_kind()->Ident_0@) && final(self).pos == old(self).pos + 1 && t.span
                == old(self).tokens@[old(self).pos as int].span && final(self).diags == old(self).diags,
            old(self).cur_kind() is LBracket ==> t.kind is Array,
            !(old(self).cur_kind() is Ident || old(self).cur_kind() is LBracket || old(self).cur_kind() is LParen) ==> t.kind
                is Error && final(self).pos == old(self).pos && reported(*old(self), *final(self)) && t.span
                == old(self).tokens@[old(self).pos as int].span,
        decreases old(self).rem(),
    {
        if self.at(&TokenKind::LBracket) {
            let start = self.span();
            self.bump();  // `[`
            let elem = self.parse_type();
            let close = match self.expect(&TokenKind::RBracket) {
                Some(s) => s,
                None => elem.span,
            };
            let span = start.to(close);
            return TypeExpr { kind: TypeExprKind::Array(Box::new(elem)), span };
        }
        if self.at(&TokenKind::LParen) {
            let start = self.span();
            self.bump();  // `(`
            let mut elems: Vec<TypeExpr> = Vec::new();
            while !self.at(&TokenKind::RParen) && !self.at_eof()
                invariant
                    moved(*old(self), *self),
                    self.pos > old(self).pos,
                    forall|i: int| 0 <= i < elems@.len() ==> (#[trigger] elems@[i]).span.wf(),
                decreases self.rem(),
            {
                let before = self.pos;
                let t = self.parse_type();
                elems.push(t);
                if self.eat(&TokenKind::Comma).is_none() {
                    break;
                }
            }
            let close = match self.expect(&TokenKind::RParen) {
                Some(s) => s,
                None => start,
            };
            // `(T)` is just `T`; zero or two or more elements form a tuple type.
            if elems.len() == 1 {
                match elems.pop() {
                    Some(t) => {
                        return t;
                    },
                    None => {},
                }
            }
            let span = start.to(close);
            return TypeExpr { kind: TypeExprKind::Tuple(elems), span };
        }
        if let TokenKind::Ident(name) = self.kind() {
            let name = name.clone();
            let span = self.span();
            self.bump();
            TypeExpr { kind: TypeExprKind::Named(name), span }
        } else {
            let span = self.span();
            let found = self.kind().describe();
            let msg = cat3("expected a type, found ", found.as_str(), "");
            self.diags.emit(
                Diagnostic::error(DiagCode::ExpectedType, msg.as_str()).with_primary(
                    span,
                    "expected a type name here",
                ),
            );
            TypeExpr { kind: TypeExprKind::Error, span }
        }
    }
}


/// The parser state after a production that succeeded: it consumed at least
/// one token.
spec fn progressed(a: Parser, b: Parser) -> bool {
    moved(a, b) && b.pos > a.pos
}

impl Parser {
    // ---- blocks & statements ----
    fn parse_block(&mut self) -> (r: Option<Block>)
        requires
            old(self).wf(),
        ensures
            r is Some <==> old(self).cur_kind() is LBrace,
            moved(*old(self), *final(self)),
            r is Some ==> final(self).pos > old(self).pos,
            r is None ==> reported(*old(self), *final(self)),
            r matches Some(b) ==> b.span.wf(),
        decreases old(self).rem(), 12nat,
    {
        let open = self.expect(&TokenKind::LBrace)?;
        // Inside a block, struct literals are unambiguous again.
        let saved_struct_ok = self.struct_ok;
        self.struct_ok = true;
        let mut stmts: Vec<Stmt> = Vec::new();
        let mut tail: Option<Box<Expr>> = None;
        while !self.at(&TokenKind::RBrace) && !self.at_eof()
            invariant
                self.wf(),
                self.tokens@ == old(self).tokens@,
                self.pos > old(self).pos,
                extends(old(self).diags.spec_items(), self.diags.spec_items()),
                self.struct_ok,
                saved_struct_ok == old(self).struct_ok,
            decreases self.rem(),
        {
            let before = self.pos;
            match self.parse_block_elem() {
                BlockElem::Stmt(s) => stmts.push(s),
                BlockElem::Tail(e) => {
                    tail = Some(Box::new(e));
                    break;
                },
                BlockElem::Error => {
                    self.recover_in_block();
                    if self.pos == before && !self.at_eof() {
                        self.bump();
                    }
                },
            }
        }
        let close = match self.expect(&TokenKind::RBrace) {
            Some(s) => s,
            None => self.span(),
        };
        self.struct_ok = saved_struct_ok;
        Some(Block { stmts, tail, span: open.to(close) })
    }

    fn parse_block_elem(&mut self) -> (r: BlockElem)
        requires
            old(self).wf(),
        ensures
            moved(*old(self), *final(self)),
            !(r is Error) ==> final(self).pos > old(self).pos,
            r is Error ==> reported(*old(self), *final(self)),
        decreases old(self).rem(), 20nat,
    {
        match self.kind() {
            TokenKind::Let => match self.parse_let() {
                Some(s) => BlockElem::Stmt(s),
                None => BlockElem::Error,
            },
            TokenKind::Return => match self.parse_return() {
                Some(s) => BlockElem::Stmt(s),
                None => BlockElem::Error,
            },
            TokenKind::While => match self.parse_while() {
                Some(s) => BlockElem::Stmt(s),
                None => BlockElem::Error,
            },
            TokenKind::For => match self.parse_for() {
                Some(s) => BlockElem::Stmt(s),
                None => BlockElem::Error,
            },
            TokenKind::Break => match self.parse_loop_jump(false) {
                Some(s) => BlockElem::Stmt(s),
                None => BlockElem::Error,
            },
            TokenKind::Continue => match self.parse_loop_jump(true) {
                Some(s) => BlockElem::Stmt(s),
                None => BlockElem::Error,
            },
            _ => self.parse_expr_stmt_or_tail(),
        }
    }

    fn parse_let(&mut self) -> (r: Option<Stmt>)
        requires
            old(self).wf(),
            old(self).cur_kind() is Let,
        ensures
            r matches Some(st) ==> st.kind is Let,
            moved(*old(self), *final(self)),
            r is Some ==> final(self).pos > old(self).pos,
            r is None ==> reported(*old(self), *final(self)),
            r matches Some(s) ==> s.span.wf(),
        decreases old(self).rem(), 19nat,
    {
        let start = self.span();
        self.bump();  // `let`
        let mutable = self.eat(&TokenKind::Mut).is_some();
        let name = self.parse_ident()?;
        let ty = if self.eat(&TokenKind::Colon).is_some() {
            Some(self.parse_type())
        } else {
            None
        };
        self.expect(&TokenKind::Eq)?;
        let init = self.parse_expr()?;
        let semi = self.expect(&TokenKind::Semi)?;
        let span = start.to(semi);
        let id = self.fresh_id();
        Some(Stmt { kind: StmtKind::Let(LetStmt { id, name, mutable, ty, init }), span })
    }

    fn parse_return(&mut self) -> (r: Option<Stmt>)
        requires
            old(self).wf(),
            old(self).cur_kind() is Return,
        ensures
            old(self).tokens@[old(self).pos + 1].kind is Semi ==> (r matches Some(s) && s.kind == StmtKind::Return(None)),
            moved(*old(self), *final(self)),
            r is Some ==> final(self).pos > old(self).pos,
            r is None ==> reported(*old(self), *final(self)),
            r matches Some(s) ==> s.span.wf(),
        decreases old(self).rem(), 19nat,
    {
        let start = self.span();
        self.bump();  // `return`
        // `return;` returns unit; otherwise an expression precedes the `;`.
        let value = if self.at(&TokenKind::Semi) {
            None
        } else {
            Some(self.parse_expr()?)
        };
        let semi = self.expect(&TokenKind::Semi)?;
        Some(Stmt { kind: StmtKind::Return(value), span: start.to(semi) })
    }

    /// Parses an expression with struct literals allowed or not, restoring the
    /// previous setting afterward.
    fn parse_expr_with(&mut self, allowed: bool) -> (r: Option<Expr>)
        requires
            old(self).wf(),
        ensures
            moved(*old(self), *final(self)),
            r is Some ==> final(self).pos > old(self).pos,
            r is None ==> reported(*old(self), *final(self)),
            r matches Some(e) ==> e.span.wf(),
        decreases old(self).rem(), 19nat,
    {
        let saved = self.struct_ok;
        self.struct_ok = allowed;
        let r = self.parse_expr();
        self.struct_ok = saved;
        r
    }

    fn parse_while(&mut self) -> (r: Option<Stmt>)
        requires
            old(self).wf(),
            old(self).cur_kind() is While,
        ensures
            r matches Some(st) ==> st.kind is While,
            moved(*old(self), *final(self)),
            r is Some ==> final(self).pos > old(self).pos,
            r is None ==> reported(*old(self), *final(self)),
            r matches Some(s) ==> s.span.wf(),
        decreases old(self).rem(), 19nat,
    {
        let start = self.span();
        self.bump();  // `while`
        let cond = self.parse_expr_with(false)?;
        let body = self.parse_block()?;
        let span = start.to(body.span);
        Some(Stmt { kind: StmtKind::While(WhileStmt { cond, body }), span })
    }

    fn parse_for(&mut self) -> (r: Option<Stmt>)
        requires
            old(self).wf(),
            old(self).cur_kind() is For,
        ensures
            r matches Some(st) ==> (st.kind is For || st.kind is ForEach),
            moved(*old(self), *final(self)),
            r is Some ==> final(self).pos > old(self).pos,
            r is None ==> reported(*old(self), *final(self)),
            r matches Some(s) ==> s.span.wf(),
        decreases old(self).rem(), 19nat,
    {
        let start = self.span();
        self.bump();  // `for`
        let var = self.parse_ident()?;
        self.expect(&TokenKind::In)?;
        let first = self.parse_expr_with(false)?;
        // `for v in start..end` is a range loop; `for v in expr` iterates the
        // elements of an array. The `..` after the first expression decides.
        if self.eat(&TokenKind::DotDot).is_some() {
            let range_end = self.parse_expr_with(false)?;
            let body = self.parse_block()?;
            let span = start.to(body.span);
            let id = self.fresh_id();
            return Some(
                Stmt {
                    kind: StmtKind::For(ForStmt { id, var, start: first, end: range_end, body }),
                    span,
                },
            );
        }
        let body = self.parse_block()?;
        let span = start.to(body.span);
        let id = self.fresh_id();
        Some(
            Stmt { kind: StmtKind::ForEach(ForEachStmt { id, var, iterable: first, body }), span },
        )
    }

    /// Parses a `break;` (`is_continue == false`) or `continue;` statement.
    fn parse_loop_jump(&mut self, is_continue: bool) -> (r: Option<Stmt>)
        requires
            old(self).wf(),
            old(self).cur_kind() is Break || old(self).cur_kind() is Continue,
        ensures
            r is Some <==> old(self).tokens@[old(self).pos + 1].kind is Semi,
            r matches Some(s) ==> s.kind == (if is_continue { StmtKind::Continue } else { StmtKind::Break }),
            moved(*old(self), *final(self)),
            r is Some ==> final(self).pos > old(self).pos,
            r is None ==> reported(*old(self), *final(self)),
            r matches Some(s) ==> s.span.wf(),
        decreases old(self).rem(), 19nat,
    {
        let start = self.span();
        self.bump();  // `break` / `continue`
        let semi = self.expect(&TokenKind::Semi)?;
        let kind = if is_continue {
            StmtKind::Continue
        } else {
            StmtKind::Break
        };
        Some(Stmt { kind, span: start.to(semi) })
    }

    /// Parses an expression in statement position and decides whether it is a
    /// statement (`expr;` or a block-like expression) or the block's tail value.
    fn parse_expr_stmt_or_tail(&mut self) -> (r: BlockElem)
        requires
            old(self).wf(),
        ensures
            moved(*old(self), *final(self)),
            !(r is Error) ==> final(self).pos > old(self).pos,
            r is Error ==> reported(*old(self), *final(self)),
        decreases old(self).rem(), 19nat,
    {
        let expr = match self.parse_expr() {
            Some(e) => e,
            None => {
                return BlockElem::Error;
            },
        };
        if let Some(semi) = self.eat(&TokenKind::Semi) {
            let span = expr.span.to(semi);
            BlockElem::Stmt(Stmt { kind: StmtKind::Expr(expr), span })
        } else if self.at(&TokenKind::RBrace) {
            BlockElem::Tail(expr)
        } else if expr.is_block_like() {
            // `if ...` / `{ ... }` may stand alone as a statement, like in Rust.
            let span = expr.span;
            BlockElem::Stmt(Stmt { kind: StmtKind::Expr(expr), span })
        } else {
            self.error_expected("`;` or `}`");
            BlockElem::Error
        }
    }

    // ---- expressions (Pratt) ----
    fn parse_expr(&mut self) -> (r: Option<Expr>)
        requires
            old(self).wf(),
        ensures
            moved(*old(self), *final(self)),
            r is Some ==> final(self).pos > old(self).pos,
            r is None ==> reported(*old(self), *final(self)),
            r matches Some(e) ==> e.span.wf(),
        decreases old(self).rem(), 18nat,
    {
        self.parse_assign()
    }

    /// Assignment is the lowest-precedence, right-associative expression form.
    /// Plain `=` and compound `+=`/`-=`/`*=`/`/=`/`%=` are handled here.
    fn parse_assign(&mut self) -> (r: Option<Expr>)
        requires
            old(self).wf(),
        ensures
            moved(*old(self), *final(self)),
            r is Some ==> final(self).pos > old(self).pos,
            r is None ==> reported(*old(self), *final(self)),
            r matches Some(e) ==> e.span.wf(),
        decreases old(self).rem(), 17nat,
    {
        let lhs = self.parse_bp(0)?;
        if self.at(&TokenKind::Eq) {
            self.bump();  // `=`
            let value = self.parse_assign()?;
            let span = lhs.span.to(value.span);
            return Some(
                self.mk_expr(ExprKind::Assign { target: Box::new(lhs), value: Box::new(value) }, span),
            );
        }
        if let Some(op) = compound_assign_op(self.kind()) {
            self.bump();  // `+=` etc.
            let value = self.parse_assign()?;
            let span = lhs.span.to(value.span);
            return Some(
                self.mk_expr(
                    ExprKind::AssignOp { target: Box::new(lhs), op, value: Box::new(value) },
                    span,
                ),
            );
        }
        Some(lhs)
    }

    /// Precedence-climbing core: parses binary operators whose left binding
    /// power is at least `min_bp`.
    fn parse_bp(&mut self, min_bp: u8) -> (r: Option<Expr>)
        requires
            old(self).wf(),
        ensures
            moved(*old(self), *final(self)),
            r is Some ==> final(self).pos > old(self).pos,
            r is None ==> reported(*old(self), *final(self)),
            r matches Some(e) ==> e.span.wf(),
        decreases old(self).rem(), 16nat,
    {
        let mut lhs = self.parse_unary()?;
        loop
            invariant
                moved(*old(self), *self),
                self.pos > old(self).pos,
                lhs.span.wf(),
            decreases self.rem(),
        {
            let op = match peek_binop(self.kind()) {
                Some(op) => op,
                None => break,
            };
            let (lbp, rbp) = binding_power(op);
            if lbp < min_bp {
                break;
            }
            self.bump();  // operator
            let rhs = self.parse_bp(rbp)?;
            let span = lhs.span.to(rhs.span);
            lhs = self.mk_expr(ExprKind::Binary { op, lhs: Box::new(lhs), rhs: Box::new(rhs) }, span);
        }
        Some(lhs)
    }

    fn parse_unary(&mut self) -> (r: Option<Expr>)
        requires
            old(self).wf(),
        ensures
            old(self).cur_kind() is Minus ==> (r matches Some(e) ==> e.kind matches ExprKind::Unary { op: UnOp::Neg, .. }),
            old(self).cur_kind() is Bang ==> (r matches Some(e) ==> e.kind matches ExprKind::Unary { op: UnOp::Not, .. }),
            moved(*old(self), *final(self)),
            r is Some ==> final(self).pos > old(self).pos,
            r is None ==> reported(*old(self), *final(self)),
            r matches Some(e) ==> e.span.wf(),
        decreases old(self).rem(), 15nat,
    {
        let op = match self.kind() {
            TokenKind::Minus => UnOp::Neg,
            TokenKind::Bang => UnOp::Not,
            _ => {
                return self.parse_call();
            },
        };
        let start = self.span();
        self.bump();
        let rhs = self.parse_unary()?;
        let span = start.to(rhs.span);
        Some(self.mk_expr(ExprKind::Unary { op, rhs: Box::new(rhs) }, span))
    }

    /// Parses postfix calls `f(...)`, indexing `a[i]`, and field access `a.b`,
    /// which chain freely.
    fn parse_call(&mut self) -> (r: Option<Expr>)
        requires
            old(self).wf(),
        ensures
            moved(*old(self), *final(self)),
            r is Some ==> final(self).pos > old(self).pos,
            r is None ==> reported(*old(self), *final(self)),
            r matches Some(e) ==> e.span.wf(),
        decreases old(self).rem(), 14nat,
    {
        let mut expr = self.parse_primary()?;
        loop
            invariant
                moved(*old(self), *self),
                self.pos > old(self).pos,
                expr.span.wf(),
            decreases self.rem(),
        {
            if self.at(&TokenKind::LParen) {
                let ghost p0 = self.pos;
                self.bump();  // `(`
                let mut args: Vec<Expr> = Vec::new();
                while !self.at(&TokenKind::RParen) && !self.at_eof()
                    invariant
                        moved(*old(self), *self),
                        self.pos > old(self).pos,
                        self.pos > p0,
                        expr.span.wf(),
                    decreases self.rem(),
                {
                    let arg = self.parse_expr_with(true)?;
                    args.push(arg);
                    if self.eat(&TokenKind::Comma).is_none() {
                        break;
                    }
                }
                let close = self.expect(&TokenKind::RParen)?;
                let span = expr.span.to(close);
                expr = self.mk_expr(ExprKind::Call { callee: Box::new(expr), args }, span);
            } else if self.at(&TokenKind::LBracket) {
                self.bump();  // `[`
                let index = self.parse_expr_with(true)?;
                let close = self.expect(&TokenKind::RBracket)?;
                let span = expr.span.to(close);
                expr = self.mk_expr(ExprKind::Index { base: Box::new(expr), index: Box::new(index) }, span);
            } else if self.at(&TokenKind::Dot) {
                self.bump();  // `.`
                // `.0` is a tuple index; `.name` is a struct field access.
                if let TokenKind::Int(n) = self.kind() {
                    let index = *n as usize;  // non-negative by construction
                    let index_span = self.span();
                    self.bump();
                    let span = expr.span.to(index_span);
                    expr = self.mk_expr(
                        ExprKind::TupleIndex { base: Box::new(expr), index, index_span },
                        span,
                    );
                } else {
                    let field = self.parse_ident()?;
                    let span = expr.span.to(field.span);
                    expr = self.mk_expr(ExprKind::Field { base: Box::new(expr), field }, span);
                }
            } else {
                break;
            }
        }
        Some(expr)
    }

    fn parse_primary(&mut self) -> (r: Option<Expr>)
        requires
            old(self).wf(),
        ensures
            !starts_primary(old(self).cur_kind()) ==> r is None && final(self).pos == old(self).pos,
            old(self).cur_kind() is Int ==> (r matches Some(e) && e.kind == ExprKind::Int(old(self).cur_kind()->Int_0)
                && final(self).pos == old(self).pos + 1),
            old(self).cur_kind() is True ==> (r matches Some(e) && e.kind == ExprKind::Bool(true)),
            old(self).cur_kind() is False ==> (r matches Some(e) && e.kind == ExprKind::Bool(false)),
            moved(*old(self), *final(self)),
            r is Some ==> final(self).pos > old(self).pos,
            r is None ==> reported(*old(self), *final(self)),
            r matches Some(e) ==> e.span.wf(),
        decreases old(self).rem(), 13nat,
    {
        let span = self.span();
        let kind = match self.kind() {
            TokenKind::Int(v) => ExprKind::Int(*v),
            TokenKind::Float(text) => ExprKind::Float(text.clone()),
            TokenKind::Str(s) => ExprKind::Str(s.clone()),
            TokenKind::True => ExprKind::Bool(true),
            TokenKind::False => ExprKind::Bool(false),
            TokenKind::Ident(name) => {
                // `Name { ... }` is a struct literal, but only where allowed (not
                // in a condition position, where `{` starts a block).
                if self.struct_ok && matches!(self.nth_kind(1), TokenKind::LBrace) {
                    return self.parse_struct_lit();
                }
                ExprKind::Name(name.clone())
            },
            TokenKind::LParen => {
                return self.parse_grouping();
            },
            TokenKind::LBrace => {
                let block = self.parse_block()?;
                let span = block.span;
                return Some(self.mk_expr(ExprKind::Block(block), span));
            },
            TokenKind::If => {
                return self.parse_if();
            },
            TokenKind::Match => {
                return self.parse_match();
            },
            TokenKind::LBracket => {
                return self.parse_array_lit();
            },
            _ => {
                self.error_expected("an expression");
                return None;
            },
        };
        self.bump();
        Some(self.mk_expr(kind, span))
    }

    fn parse_array_lit(&mut self) -> (r: Option<Expr>)
        requires
            old(self).wf(),
            old(self).cur_kind() is LBracket,
        ensures
            r matches Some(e) ==> e.kind is ArrayLit,
            moved(*old(self), *final(self)),
            r is Some ==> final(self).pos > old(self).pos,
            r is None ==> reported(*old(self), *final(self)),
            r matches Some(e) ==> e.span.wf(),
        decreases old(self).rem(), 12nat,
    {
        let start = self.span();
        self.bump();  // `[`
        let mut elems: Vec<Expr> = Vec::new();
        while !self.at(&TokenKind::RBracket) && !self.at_eof()
            invariant
                moved(*old(self), *self),
                self.pos > old(self).pos,
            decreases self.rem(),
        {
            let e = self.parse_expr_with(true)?;
            elems.push(e);
            if self.eat(&TokenKind::Comma).is_none() {
                break;
            }
        }
        let close = self.expect(&TokenKind::RBracket)?;
        let span = start.to(close);
        Some(self.mk_expr(ExprKind::ArrayLit(elems), span))
    }

    /// Parses `Name { field: value, ... }`.
    fn parse_struct_lit(&mut self) -> (r: Option<Expr>)
        requires
            old(self).wf(),
        ensures
            r matches Some(e) ==> e.kind is StructLit,
            moved(*old(self), *final(self)),
            r is Some ==> final(self).pos > old(self).pos,
            r is None ==> reported(*old(self), *final(self)),
            r matches Some(e) ==> e.span.wf(),
        decreases old(self).rem(), 12nat,
    {
        let name = self.parse_ident()?;
        self.expect(&TokenKind::LBrace)?;
        let mut fields: Vec<FieldInit> = Vec::new();
        while !self.at(&TokenKind::RBrace) && !self.at_eof()
            invariant
                moved(*old(self), *self),
                self.pos > old(self).pos,
                name.span.wf(),
            decreases self.rem(),
        {
            let field_name = self.parse_ident()?;
            self.expect(&TokenKind::Colon)?;
            let value = self.parse_expr_with(true)?;
            fields.push(FieldInit { name: field_name, value });
            if self.eat(&TokenKind::Comma).is_none() {
                break;
            }
        }
        let close = self.expect(&TokenKind::RBrace)?;
        let span = name.span.to(close);
        Some(self.mk_expr(ExprKind::StructLit { name, fields }, span))
    }

    /// Parses `( ... )`: either a parenthesised expression (one element, no
    /// comma) or a tuple literal.
    fn parse_grouping(&mut self) -> (r: Option<Expr>)
        requires
            old(self).wf(),
            old(self).cur_kind() is LParen,
        ensures
            moved(*old(self), *final(self)),
            r is Some ==> final(self).pos > old(self).pos,
            r is None ==> reported(*old(self), *final(self)),
            r matches Some(e) ==> e.span.wf(),
        decreases old(self).rem(), 12nat,
    {
        let start = self.span();
        self.bump();  // `(`
        let mut elems: Vec<Expr> = Vec::new();
        let mut saw_comma = false;
        while !self.at(&TokenKind::RParen) && !self.at_eof()
            invariant
                moved(*old(self), *self),
                self.pos > old(self).pos,
                forall|i: int| 0 <= i < elems@.len() ==> (#[trigger] elems@[i]).span.wf(),
            decreases self.rem(),
        {
            let e = self.parse_expr_with(true)?;
            elems.push(e);
            if self.eat(&TokenKind::Comma).is_some() {
                saw_comma = true;
            } else {
                break;
            }
        }
        let close = self.expect(&TokenKind::RParen)?;
        if elems.len() == 1 && !saw_comma {
            // `(e)` is just a grouped expression.
            match elems.pop() {
                Some(e) => {
                    return Some(e);
                },
                None => {},
            }
        }
        let span = start.to(close);
        Some(self.mk_expr(ExprKind::TupleLit(elems), span))
    }

    fn parse_if(&mut self) -> (r: Option<Expr>)
        requires
            old(self).wf(),
            old(self).cur_kind() is If,
        ensures
            r matches Some(e) ==> e.kind is If,
            moved(*old(self), *final(self)),
            r is Some ==> final(self).pos > old(self).pos,
            r is None ==> reported(*old(self), *final(self)),
            r matches Some(e) ==> e.span.wf(),
        decreases old(self).rem(), 12nat,
    {
        let start = self.span();
        self.bump();  // `if`
        let cond = self.parse_expr_with(false)?;
        let then_branch = self.parse_block()?;
        let mut end = then_branch.span;
        let else_branch = if self.eat(&TokenKind::Else).is_some() {
            let e = if self.at(&TokenKind::If) {
                self.parse_if()?
            } else {
                let block = self.parse_block()?;
                let span = block.span;
                self.mk_expr(ExprKind::Block(block), span)
            };
            end = e.span;
            Some(Box::new(e))
        } else {
            None
        };
        let span = start.to(end);
        Some(
            self.mk_expr(
                ExprKind::If(IfExpr { cond: Box::new(cond), then_branch, else_branch }),
                span,
            ),
        )
    }

    /// Parses `match scrutinee { pat => body, ... }`.
    fn parse_match(&mut self) -> (r: Option<Expr>)
        requires
            old(self).wf(),
            old(self).cur_kind() is Match,
        ensures
            r matches Some(e) ==> e.kind is Match,
            moved(*old(self), *final(self)),
            r is Some ==> final(self).pos > old(self).pos,
            r is None ==> reported(*old(self), *final(self)),
            r matches Some(e) ==> e.span.wf(),
        decreases old(self).rem(), 12nat,
    {
        let start = self.span();
        self.bump();  // `match`
        let scrutinee = self.parse_expr_with(false)?;
        self.expect(&TokenKind::LBrace)?;
        let mut arms: Vec<MatchArm> = Vec::new();
        while !self.at(&TokenKind::RBrace) && !self.at_eof()
            invariant
                moved(*old(self), *self),
                self.pos > old(self).pos,
            decreases self.rem(),
        {
            let arm_start = self.span();
            let pattern = self.parse_pattern()?;
            self.expect(&TokenKind::FatArrow)?;
            let body = self.parse_expr_with(true)?;
            let span = arm_start.to(body.span);
            let block_like = matches!(body.kind, ExprKind::Block(_) | ExprKind::If(_) | ExprKind::Match(_));
            arms.push(MatchArm { pattern, body, span });
            // A comma separates arms. It is optional after a block-like body
            // and after the final arm.
            if self.eat(&TokenKind::Comma).is_none() && !block_like {
                break;
            }
        }
        let close = self.expect(&TokenKind::RBrace)?;
        let span = start.to(close);
        Some(
            self.mk_expr(ExprKind::Match(MatchExpr { scrutinee: Box::new(scrutinee), arms }), span),
        )
    }

    /// Parses a single `match` arm pattern: a scalar literal or `_`.
    fn parse_pattern(&mut self) -> (r: Option<Pattern>)
        requires
            old(self).wf(),
        ensures
            r == pattern_at(old(self).tokens@, old(self).pos as int),
            moved(*old(self), *final(self)),
            r is Some ==> final(self).pos > old(self).pos,
            r is None ==> reported(*old(self), *final(self)),
    {
        match self.kind() {
            TokenKind::Int(v) => {
                let v = *v;
                self.bump();
                Some(Pattern::Int(v))
            },
            TokenKind::Minus => {
                self.bump();
                match self.kind() {
                    TokenKind::Int(v) => {
                        let v = *v;
                        self.bump();
                        Some(Pattern::Int(-v))
                    },
                    _ => {
                        self.error_expected("an integer after `-`");
                        None
                    },
                }
            },
            TokenKind::True => {
                self.bump();
                Some(Pattern::Bool(true))
            },
            TokenKind::False => {
                self.bump();
                Some(Pattern::Bool(false))
            },
            TokenKind::Ident(name) => {
                if str_eq(name.as_str(), "_") {
                    self.bump();
                    Some(Pattern::Wild)
                } else {
                    self.error_expected("a pattern (a literal or `_`)");
                    None
                }
            },
            _ => {
                self.error_expected("a pattern (a literal or `_`)");
                None
            },
        }
    }

    // ---- recovery ----
    /// Skips tokens until the next top-level item boundary (`fn`, `const`, EOF).
    fn recover_to_item(&mut self)
        requires
            old(self).wf(),
        ensures
            moved(*old(self), *final(self)),
            final(self).diags == old(self).diags,
            final(self).cur_kind() is Eof || final(self).cur_kind() is Fn || final(self).cur_kind() is Const,
            forall|i: int|
                old(self).pos <= i < final(self).pos ==> !(#[trigger] old(self).tokens@[i].kind is Fn)
                    && !(old(self).tokens@[i].kind is Const),
    {
        while !self.at_eof() && !self.at(&TokenKind::Fn) && !self.at(&TokenKind::Const)
            invariant
                moved(*old(self), *self),
                self.diags == old(self).diags,
                forall|i: int|
                    old(self).pos <= i < self.pos ==> !(#[trigger] old(self).tokens@[i].kind is Fn)
                        && !(old(self).tokens@[i].kind is Const),
            decreases self.rem(),
        {
            self.bump();
        }
    }

    /// Skips to the end of the current statement: past the next `;`, or up to
    /// the closing `}` of the block.
    fn recover_in_block(&mut self)
        requires
            old(self).wf(),
        ensures
            moved(*old(self), *final(self)),
            final(self).diags == old(self).diags,
            forall|i: int|
                old(self).pos <= i < final(self).pos ==> !(#[trigger] old(self).tokens@[i].kind is RBrace),
            forall|i: int|
                old(self).pos <= i < final(self).pos - 1 ==> !(#[trigger] old(self).tokens@[i].kind is Semi),
            final(self).cur_kind() is Eof || final(self).cur_kind() is RBrace || (final(self).pos > old(self).pos
                && old(self).tokens@[final(self).pos - 1].kind is Semi),
    {
        while !self.at_eof() && !self.at(&TokenKind::RBrace)
            invariant_except_break
                self.pos == old(self).pos || !(old(self).tokens@[self.pos - 1].kind is Semi),
            invariant
                moved(*old(self), *self),
                self.diags == old(self).diags,
                forall|i: int|
                    old(self).pos <= i < self.pos ==> !(#[trigger] old(self).tokens@[i].kind is RBrace),
                forall|i: int|
                    old(self).pos <= i < self.pos - 1 ==> !(#[trigger] old(self).tokens@[i].kind is Semi),
            ensures
                self.cur_kind() is Eof || self.cur_kind() is RBrace || (self.pos > old(self).pos
                    && old(self).tokens@[self.pos - 1].kind is Semi),
            decreases self.rem(),
        {
            let was_semi = self.at(&TokenKind::Semi);
            self.bump();
            if was_semi {
                break;
            }
        }
    }
}

} // verus!
