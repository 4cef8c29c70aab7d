//! Lowering: AST + resolution + type-checking results → HIR.
//!
//! Lowering assumes the program is well typed: the driver only calls it
//! after resolution and type checking reported no errors, and it emits no
//! diagnostics. Where a malformed program could reach a branch (a name that
//! did not resolve to a local, say), lowering substitutes a harmless
//! placeholder rather than failing.
//!
//! For each function it allocates a dense [`LocalId`] for every parameter
//! and `let` binding (parameters first), recording the mapping from the
//! AST's definition ids, then walks the body, replacing names with local
//! reads, call targets with [`Callee`]s, and attaching the type computed by
//! the checker to every node. Constants are inlined at each use.

use vstd::prelude::*;

use crate::hir::{
    block_slots_below, expr_slots_below, exprs_slots_below, function_wf, kind_slots_below, lemma_block_slots_grow,
    lemma_expr_slots_grow, lemma_exprs_slots_grow, lemma_stmt_slots_grow, lemma_stmts_slots_grow, slot_bound,
    stmt_slots_below, stmts_slots_below, Block, Callee, Expr, ExprKind, FnId, Function, Hir, LocalDecl, LocalId,
    Stmt,
};
use crate::node_map::NodeMap;
use crate::parser::ast;
use crate::parser::ast::{BinOp, NodeId};
use crate::sema::resolve::{declared, lemma_declared_kind, tables_match, Res, Resolution, StructId};
use crate::sema::typeck::{ConstValue, Typeck};
use crate::sema::types::{Builtin, Type};
use crate::span::{covering, Span};
use crate::text::str_eq;

verus! {

/// What lowering needs of its inputs: the resolution and the checker's
/// results describe the same program.
pub open spec fn lowering_ctx(ast: &ast::Ast, res: &Resolution, tc: &Typeck) -> bool {
    &&& res.wf()
    &&& tables_match(res, ast.items@)
    &&& ast.items@.len() <= usize::MAX
    &&& tc.signatures@.len() == res.functions.names().len()
    &&& tc.structs@.len() == res.structs.names().len()
    &&& tc.const_values@.len() == res.consts.names().len()
}

/// The type the checker recorded for an expression (the error type if none).
pub open spec fn type_at(tc: &Typeck, id: NodeId) -> Type {
    if tc.expr_types@.contains_key(id) {
        tc.expr_types@[id]
    } else {
        Type::Error
    }
}

/// The type the checker recorded for a binding (the error type if none).
pub open spec fn local_type_at(tc: &Typeck, id: NodeId) -> Type {
    if tc.local_types@.contains_key(id) {
        tc.local_types@[id]
    } else {
        Type::Error
    }
}


/// The slot lowering gives the local named at use `id`: the slot of its
/// definition, or slot 0 when it names no placed local.
pub open spec fn slot_of_use(res: &Resolution, map: Map<NodeId, LocalId>, id: NodeId) -> LocalId {
    if res.uses@.contains_key(id) && res.uses@[id] is Local && map.contains_key(res.uses@[id]->Local_0) {
        map[res.uses@[id]->Local_0]
    } else {
        LocalId(0)
    }
}

/// The call target of a callee used at `id` (function 0 when it names no
/// function or builtin).
pub open spec fn callee_of_use(res: &Resolution, id: NodeId) -> Callee {
    if res.uses@.contains_key(id) {
        match res.uses@[id] {
            Res::Fn(f) => Callee::Fn(f),
            Res::Builtin(b) => Callee::Builtin(b),
            _ => Callee::Fn(FnId(0)),
        }
    } else {
        Callee::Fn(FnId(0))
    }
}

/// Whether `h` is the literal a use of a constant with value `v` becomes. A
/// value computed with floating point becomes the expression computing it.
pub open spec fn const_literal(v: ConstValue, h: ExprKind) -> bool {
    match v {
        ConstValue::Int(x) => h == ExprKind::Int(x),
        ConstValue::Float(t) => h matches ExprKind::Float(u) && u@ == t@,
        ConstValue::Bool(b) => h == ExprKind::Bool(b),
        ConstValue::Str(t) => h matches ExprKind::Str(u) && u@ == t@,
        ConstValue::Computed(_, _) => true,
    }
}

/// What a name in value position lowers to: a read of its local's slot, an
/// inlined constant, or (for a name that is neither) the integer 0.
pub open spec fn name_form(res: &Resolution, tc: &Typeck, map: Map<NodeId, LocalId>, id: NodeId, h: ExprKind) -> bool {
    if res.uses@.contains_key(id) {
        match res.uses@[id] {
            Res::Local(_) => h == ExprKind::Local(slot_of_use(res, map, id)),
            Res::Const(c) => const_literal(tc.const_values@[c.0 as int], h),
            _ => h == ExprKind::Int(0),
        }
    } else {
        h == ExprKind::Int(0)
    }
}

/// Whether field `i` is the first field named `name` of a struct.
pub open spec fn first_field(fields: Seq<(String, Type)>, name: Seq<char>, i: int) -> bool {
    &&& 0 <= i < fields.len()
    &&& fields[i].0@ == name
    &&& forall|j: int| 0 <= j < i ==> fields[j].0@ != name
}

/// The declaration index of the field `name` of the struct the expression
/// `base` has, or 0 when it is no field of a struct.
pub open spec fn field_slot(tc: &Typeck, base: NodeId, name: Seq<char>) -> u32 {
    match type_at(tc, base) {
        Type::Struct(sid) => if sid < tc.structs@.len() && exists|i: int|
            first_field(tc.structs@[sid as int].fields@, name, i) {
            (choose|i: int| first_field(tc.structs@[sid as int].fields@, name, i)) as u32
        } else {
            0
        },
        _ => 0,
    }
}

/// What lowering makes of an expression, one level deep: each form becomes
/// the HIR form it stands for or desugars to, keeping literals, operators,
/// operand counts and the checker's types of the operands.
pub open spec fn lowered_form(res: &Resolution, tc: &Typeck, map: Map<NodeId, LocalId>, a: &ast::Expr, h: ExprKind) -> bool {
    match a.kind {
        ast::ExprKind::Int(v) => h == ExprKind::Int(v),
        ast::ExprKind::Float(t) => h matches ExprKind::Float(u) && u@ == t@,
        ast::ExprKind::Bool(b) => h == ExprKind::Bool(b),
        ast::ExprKind::Str(t) => h matches ExprKind::Str(u) && u@ == t@,
        ast::ExprKind::Name(_) => name_form(res, tc, map, a.id, h),
        ast::ExprKind::Unary { op, rhs } => h matches ExprKind::Unary { op: o, rhs: r } && o == op && r.ty
            == type_at(tc, rhs.id),
        ast::ExprKind::Binary { op, lhs, rhs } => h matches ExprKind::Binary { op: o, lhs: l, rhs: r } && o == op
            && l.ty == type_at(tc, lhs.id) && r.ty == type_at(tc, rhs.id),
        ast::ExprKind::Call { callee, args } => h matches ExprKind::Call { callee: c, args: hs } && c
            == callee_of_use(res, callee.id) && hs@.len() == args@.len() && forall|i: int|
            0 <= i < hs@.len() ==> (#[trigger] hs@[i]).ty == type_at(tc, args@[i].id),
        ast::ExprKind::ArrayLit(es) => h matches ExprKind::ArrayLit(hs) && hs@.len() == es@.len() && forall|i: int|
            0 <= i < hs@.len() ==> (#[trigger] hs@[i]).ty == type_at(tc, es@[i].id),
        ast::ExprKind::Index { base, index } => h matches ExprKind::Index { base: b, index: i } && b.ty == type_at(
            tc,
            base.id,
        ) && i.ty == type_at(tc, index.id),
        ast::ExprKind::StructLit { name, .. } => if res.structs.names().contains(name.name@) {
            h matches ExprKind::StructLit(hs) && exists|sid: int|
                0 <= sid < res.structs.names().len() && res.structs.names()[sid] == name.name@ && hs@.len()
                    == tc.structs@[sid].fields@.len()
        } else {
            h == ExprKind::Int(0)
        },
        ast::ExprKind::Field { base, field } => h matches ExprKind::GetField { base: b, idx } && b.ty == type_at(
            tc,
            base.id,
        ) && idx == field_slot(tc, base.id, field.name@),
        ast::ExprKind::TupleLit(es) => h matches ExprKind::StructLit(hs) && hs@.len() == es@.len() && forall|i: int|
            0 <= i < hs@.len() ==> (#[trigger] hs@[i]).ty == type_at(tc, es@[i].id),
        ast::ExprKind::TupleIndex { base, index, .. } => h matches ExprKind::GetField { base: b, idx } && b.ty
            == type_at(tc, base.id) && idx == index as u32,
        ast::ExprKind::Assign { target, value } => match target.kind {
            ast::ExprKind::Index { base, index } => h matches ExprKind::SetIndex { base: b, index: i, value: v }
                && b.ty == type_at(tc, base.id) && i.ty == type_at(tc, index.id) && v.ty == type_at(tc, value.id),
            ast::ExprKind::Field { base, field } => h matches ExprKind::SetField { base: b, idx, value: v } && b.ty
                == type_at(tc, base.id) && idx == field_slot(tc, base.id, field.name@) && v.ty == type_at(tc, value.id),
            ast::ExprKind::TupleIndex { base, index, .. } => h matches ExprKind::SetField { base: b, idx, value: v }
                && b.ty == type_at(tc, base.id) && idx == index as u32 && v.ty == type_at(tc, value.id),
            _ => h matches ExprKind::Assign { local, value: v } && local == slot_of_use(res, map, target.id) && v.ty
                == type_at(tc, value.id),
        },
        ast::ExprKind::AssignOp { target, op, value } => h matches ExprKind::Assign { local, value: v } && {
            &&& local == slot_of_use(res, map, target.id)
            &&& v.ty == type_at(tc, target.id)
            &&& v.span == covering(target.span, value.span)
            &&& v.kind matches ExprKind::Binary { op: o, lhs: l, rhs: r } && o == op && l.kind == ExprKind::Local(
                local,
            ) && l.ty == type_at(tc, target.id) && r.ty == type_at(tc, value.id)
        },
        ast::ExprKind::If(i) => h matches ExprKind::If { cond: c, then_branch: t, else_branch: el } && c.ty == type_at(
            tc,
            i.cond.id,
        ) && t.stmts@.len() == i.then_branch.stmts@.len() && (el is Some <==> i.else_branch is Some),
        ast::ExprKind::Match(m) => h matches ExprKind::Block(b) && b.stmts@.len() == 1 && b.stmts@[0] is Let
            && b.tail is Some,
        ast::ExprKind::Block(b) => h matches ExprKind::Block(hb) && hb.stmts@.len() == b.stmts@.len(),
    }
}


/// What lowering makes of a statement, one level deep.
pub open spec fn lowered_stmt_form(tc: &Typeck, a: &ast::Stmt, h: Stmt) -> bool {
    match a.kind {
        ast::StmtKind::Let(l) => h matches Stmt::Let { value, .. } && value.ty == type_at(tc, l.init.id),
        ast::StmtKind::Expr(e) => h matches Stmt::Expr(x) && x.ty == type_at(tc, e.id),
        ast::StmtKind::Return(v) => h matches Stmt::Return(r) && (r is Some <==> v is Some) && (v is Some ==> r->0.ty
            == type_at(tc, v->0.id)),
        ast::StmtKind::While(w) => h matches Stmt::While { cond, body } && cond.ty == type_at(tc, w.cond.id)
            && body.stmts@.len() == w.body.stmts@.len(),
        ast::StmtKind::For(f) => h matches Stmt::For { start, end, body, .. } && start.ty == type_at(tc, f.start.id)
            && end.ty == type_at(tc, f.end.id) && body.stmts@.len() == f.body.stmts@.len(),
        ast::StmtKind::ForEach(f) => h matches Stmt::Expr(x) && {
            &&& x.ty == Type::Unit
            &&& x.kind matches ExprKind::Block(b) && {
                &&& b.stmts@.len() == 2
                &&& b.stmts@[0] is Let
                &&& b.stmts@[1] matches Stmt::For { start, body, .. } && start.kind == ExprKind::Int(0)
                    && body.stmts@.len() == f.body.stmts@.len() + 1
            }
        },
        ast::StmtKind::Break => h is Break,
        ast::StmtKind::Continue => h is Continue,
    }
}

/// Appending to a list keeps what its prefix says of slots.
proof fn lemma_exprs_slots_push(es: Seq<Expr>, x: Expr, k: nat, n: nat)
    requires
        k <= es.len(),
    ensures
        exprs_slots_below(es.push(x), k, n) == exprs_slots_below(es, k, n),
    decreases k,
{
    if k > 0 {
        lemma_exprs_slots_push(es, x, (k - 1) as nat, n);
        assert(es.push(x)[k - 1] == es[k - 1]);
    }
}

proof fn lemma_stmts_slots_push(ss: Seq<Stmt>, x: Stmt, k: nat, n: nat)
    requires
        k <= ss.len(),
    ensures
        stmts_slots_below(ss.push(x), k, n) == stmts_slots_below(ss, k, n),
    decreases k,
{
    if k > 0 {
        lemma_stmts_slots_push(ss, x, (k - 1) as nat, n);
        assert(ss.push(x)[k - 1] == ss[k - 1]);
    }
}

/// The recursive statement of slots over a list says it of every member.
proof fn lemma_stmts_slots_all(ss: Seq<Stmt>, k: nat, n: nat)
    requires
        k <= ss.len(),
    ensures
        stmts_slots_below(ss, k, n) <==> forall|i: int| 0 <= i < k ==> #[trigger] stmt_slots_below(ss[i], n),
    decreases k,
{
    if k > 0 {
        lemma_stmts_slots_all(ss, (k - 1) as nat, n);
        assert((forall|i: int| 0 <= i < k ==> #[trigger] stmt_slots_below(ss[i], n)) <==> ((forall|i: int|
            0 <= i < k - 1 ==> #[trigger] stmt_slots_below(ss[i], n)) && stmt_slots_below(ss[k - 1], n)));
    }
}

/// The recursive statement of slots over a list says it of every member.
proof fn lemma_exprs_slots_all(es: Seq<Expr>, k: nat, n: nat)
    requires
        k <= es.len(),
    ensures
        exprs_slots_below(es, k, n) <==> forall|i: int| 0 <= i < k ==> #[trigger] expr_slots_below(es[i], n),
    decreases k,
{
    if k > 0 {
        lemma_exprs_slots_all(es, (k - 1) as nat, n);
        assert((forall|i: int| 0 <= i < k ==> #[trigger] expr_slots_below(es[i], n)) <==> ((forall|i: int|
            0 <= i < k - 1 ==> #[trigger] expr_slots_below(es[i], n)) && expr_slots_below(es[k - 1], n)));
    }
}

/// The state of lowering one function: its locals so far, and the slot of
/// each definition seen.
struct Lowerer {
    locals: Vec<LocalDecl>,
    local_map: NodeMap<LocalId>,
}

impl Lowerer {
    /// Every recorded definition has a slot that exists.
    spec fn inv(&self) -> bool {
        &&& self.local_map.wf()
        &&& forall|k: NodeId| #[trigger] self.local_map@.contains_key(k) ==> self.local_map@[k].0 < self.locals@.len()
    }

    /// Locals are only ever appended.
    spec fn grew(&self, before: &Lowerer) -> bool {
        &&& before.locals@.len() <= self.locals@.len()
        &&& forall|i: int| 0 <= i < before.locals@.len() ==> #[trigger] self.locals@[i] == before.locals@[i]
    }

    proof fn lemma_grew_trans(a: &Lowerer, b: &Lowerer, c: &Lowerer)
        requires
            b.grew(a),
            c.grew(b),
        ensures
            c.grew(a),
    {
        assert forall|i: int| 0 <= i < a.locals@.len() implies #[trigger] c.locals@[i] == a.locals@[i] by {
            assert(b.locals@[i] == a.locals@[i]);
        }
    }

    /// Allocates a compiler-internal slot not tied to any source binding.
    fn alloc_synthetic(&mut self, name: &str, ty: Type) -> (id: LocalId)
        requires
            old(self).inv(),
        ensures
            final(self).inv(),
            final(self).grew(old(self)),
            final(self).locals@.len() == old(self).locals@.len() + 1,
            final(self).locals@.last().name@ == name@,
            final(self).locals@.last().ty == ty,
            final(self).local_map@ == old(self).local_map@,
            id.0 < final(self).locals@.len(),
            old(self).locals@.len() <= u32::MAX ==> id.0 == old(self).locals@.len(),
    {
        let id = LocalId(self.locals.len() as u32);
        self.locals.push(LocalDecl { name: name.to_owned(), ty });
        id
    }

    /// Allocates the next slot for a definition and records it.
    fn alloc_local(&mut self, def: NodeId, name: &str, ty: Type) -> (id: LocalId)
        requires
            old(self).inv(),
        ensures
            final(self).inv(),
            final(self).grew(old(self)),
            final(self).locals@.len() == old(self).locals@.len() + 1,
            final(self).locals@.last().name@ == name@,
            final(self).locals@.last().ty == ty,
            final(self).local_map@ == old(self).local_map@.insert(def, id),
            id.0 < final(self).locals@.len(),
            old(self).locals@.len() <= u32::MAX ==> id.0 == old(self).locals@.len(),
    {
        let id = self.alloc_synthetic(name, ty);
        self.local_map.insert(def, id);
        id
    }

    /// The slot of a definition, or slot 0 if (impossibly) it has none.
    fn local_of(&self, def: NodeId) -> (id: LocalId)
        ensures
            self.local_map@.contains_key(def) ==> id == self.local_map@[def],
            !self.local_map@.contains_key(def) ==> id == LocalId(0),
    {
        match self.local_map.get(def) {
            Some(id) => *id,
            None => LocalId(0),
        }
    }
}


impl Lowerer {
    /// The slot bound of the locals so far.
    spec fn bound(&self) -> nat {
        slot_bound(self.locals@.len())
    }

    /// Lowers a block: its statements in order, then its tail.
    fn lower_block(&mut self, ast: &ast::Ast, res: &Resolution, tc: &Typeck, block: &ast::Block, fuel: usize) -> (b: Block)
        requires
            old(self).inv(),
            lowering_ctx(ast, res, tc),
        ensures
            final(self).inv(),
            final(self).grew(old(self)),
            block_slots_below(b, final(self).bound()),
            b.stmts@.len() == block.stmts@.len(),
            b.tail is Some <==> block.tail is Some,
            b.ty == match block.tail {
                Some(t) => type_at(tc, t.id),
                None => Type::Unit,
            },
        decreases fuel, *block, 2int,
    {
        let ghost start = *self;
        let mut stmts: Vec<Stmt> = Vec::new();
        let mut i: usize = 0;
        while i < block.stmts.len()
            invariant
                self.inv(),
                self.grew(&start),
                lowering_ctx(ast, res, tc),
                i <= block.stmts@.len(),
                stmts@.len() == i,
                stmts_slots_below(stmts@, i as nat, self.bound()),
            decreases block.stmts@.len() - i,
        {
            let ghost before = *self;
            assert(decreases_to!(*block => block.stmts@[i as int]));
            let s = self.lower_stmt(ast, res, tc, &block.stmts[i], fuel);
            proof {
                lemma_stmts_slots_grow(stmts@, i as nat, before.bound(), self.bound());
                lemma_stmts_slots_push(stmts@, s, i as nat, self.bound());
                Lowerer::lemma_grew_trans(&start, &before, self);
            }
            stmts.push(s);
            i = i + 1;
        }
        assert(stmts@.len() == block.stmts@.len());
        let ghost mid = *self;
        match &block.tail {
            Some(t) => {
                let e = self.lower_expr(ast, res, tc, t, fuel);
                proof {
                    lemma_stmts_slots_grow(stmts@, stmts@.len(), mid.bound(), self.bound());
                    Lowerer::lemma_grew_trans(&start, &mid, self);
                }
                let ty = e.ty;
                Block { stmts, tail: Some(Box::new(e)), ty }
            },
            None => Block { stmts, tail: None, ty: Type::Unit },
        }
    }

    /// Lowers a statement.
    fn lower_stmt(&mut self, ast: &ast::Ast, res: &Resolution, tc: &Typeck, stmt: &ast::Stmt, fuel: usize) -> (s: Stmt)
        requires
            old(self).inv(),
            lowering_ctx(ast, res, tc),
        ensures
            final(self).inv(),
            final(self).grew(old(self)),
            stmt_slots_below(s, final(self).bound()),
            lowered_stmt_form(tc, stmt, s),
            stmt.kind matches ast::StmtKind::Let(l) ==> {
                &&& final(self).local_map@.contains_key(l.id)
                &&& final(self).locals@.last().name@ == l.name.name@
                &&& final(self).locals@.last().ty == local_type_at(tc, l.id)
                &&& s matches Stmt::Let { local, .. } && local == final(self).local_map@[l.id]
            },
        decreases fuel, *stmt, 2int,
    {
        let ghost start = *self;
        match &stmt.kind {
            ast::StmtKind::Let(l) => {
                // The initialiser is lowered first: the binding is not in scope for it.
                let value = self.lower_expr(ast, res, tc, &l.init, fuel);
                let ghost mid = *self;
                let local = self.alloc_local(l.id, l.name.name.as_str(), tc.local_type(l.id));
                proof {
                    lemma_expr_slots_grow(value, mid.bound(), self.bound());
                    Lowerer::lemma_grew_trans(&start, &mid, self);
                }
                Stmt::Let { local, value }
            },
            ast::StmtKind::Expr(e) => Stmt::Expr(self.lower_expr(ast, res, tc, e, fuel)),
            ast::StmtKind::Return(e) => match e {
                Some(e) => Stmt::Return(Some(self.lower_expr(ast, res, tc, e, fuel))),
                None => Stmt::Return(None),
            },
            ast::StmtKind::While(w) => {
                let cond = self.lower_expr(ast, res, tc, &w.cond, fuel);
                let ghost mid = *self;
                let body = self.lower_block(ast, res, tc, &w.body, fuel);
                proof {
                    lemma_expr_slots_grow(cond, mid.bound(), self.bound());
                    Lowerer::lemma_grew_trans(&start, &mid, self);
                }
                Stmt::While { cond, body }
            },
            ast::StmtKind::For(f) => {
                // Bounds are evaluated in the outer scope; then the loop variable
                // and a hidden slot caching the upper bound get their own slots.
                let start_e = self.lower_expr(ast, res, tc, &f.start, fuel);
                let ghost m1 = *self;
                let end_e = self.lower_expr(ast, res, tc, &f.end, fuel);
                let ghost m2 = *self;
                let var = self.alloc_local(f.id, f.var.name.as_str(), Type::Int);
                let end_var = self.alloc_synthetic("<for-end>", Type::Int);
                let ghost m3 = *self;
                let body = self.lower_block(ast, res, tc, &f.body, fuel);
                proof {
                    lemma_expr_slots_grow(start_e, m1.bound(), self.bound());
                    lemma_expr_slots_grow(end_e, m2.bound(), self.bound());
                    Lowerer::lemma_grew_trans(&start, &m1, &m2);
                    Lowerer::lemma_grew_trans(&start, &m2, &m3);
                    Lowerer::lemma_grew_trans(&start, &m3, self);
                }
                Stmt::For { var, end_var, start: start_e, end: end_e, body }
            },
            ast::StmtKind::ForEach(_) => self.lower_for_each(ast, res, tc, stmt, fuel),
            ast::StmtKind::Break => Stmt::Break,
            ast::StmtKind::Continue => Stmt::Continue,
        }
    }

    /// Desugars `for v in arr { body }` into a counted loop over a cached
    /// array:
    ///
    /// ```text
    /// {
    ///     let <arr> = arr;          // evaluate the array exactly once
    ///     for <i> in 0..len(<arr>) {
    ///         let v = <arr>[<i>];   // bind the element at the loop top
    ///         body
    ///     }
    /// }
    /// ```
    fn lower_for_each(&mut self, ast: &ast::Ast, res: &Resolution, tc: &Typeck, stmt: &ast::Stmt, fuel: usize) -> (s: Stmt)
        requires
            old(self).inv(),
            lowering_ctx(ast, res, tc),
            stmt.kind is ForEach,
        ensures
            final(self).inv(),
            final(self).grew(old(self)),
            stmt_slots_below(s, final(self).bound()),
            lowered_stmt_form(tc, stmt, s),
        decreases fuel, *stmt, 1int,
    {
        let ghost start = *self;
        let f = match &stmt.kind {
            ast::StmtKind::ForEach(f) => f,
            _ => {
                return Stmt::Break;
            },
        };
        let span = stmt.span;
        let iterable = self.lower_expr(ast, res, tc, &f.iterable, fuel);
        let ghost m1 = *self;
        let arr_ty = iterable.ty;
        let elem_ty = match arr_ty {
            Type::Array(elem) => elem.ty(),
            _ => Type::Error,
        };
        // Hidden slots: the cached array, the index, and the cached length.
        let arr_local = self.alloc_synthetic("<foreach-arr>", arr_ty);
        let idx = self.alloc_synthetic("<foreach-idx>", Type::Int);
        let end_var = self.alloc_synthetic("<for-end>", Type::Int);
        // The user-visible element binding must exist before lowering the body.
        let var = self.alloc_local(f.id, f.var.name.as_str(), elem_ty);
        let ghost m2 = *self;
        let body = self.lower_block(ast, res, tc, &f.body, fuel);
        proof {
            lemma_expr_slots_grow(iterable, m1.bound(), self.bound());
            Lowerer::lemma_grew_trans(&start, &m1, &m2);
            Lowerer::lemma_grew_trans(&start, &m2, self);
        }
        // Prepend `let v = <arr>[<i>];` to the loop body.
        let n = Ghost(self.bound());
        assert(arr_local.0 < n@ && idx.0 < n@ && end_var.0 < n@ && var.0 < n@);
        let arr_read = Expr::new(ExprKind::Local(arr_local), arr_ty, span);
        let idx_read = Expr::new(ExprKind::Local(idx), Type::Int, span);
        assert(expr_slots_below(arr_read, n@));
        assert(expr_slots_below(idx_read, n@));
        let elem = Expr::new(ExprKind::Index { base: Box::new(arr_read), index: Box::new(idx_read) }, elem_ty, span);
        assert(expr_slots_below(elem, n@));
        let read = Stmt::Let { local: var, value: elem };
        assert(stmt_slots_below(read, n@));
        let mut body = body;
        let ghost old_stmts = body.stmts@;
        proof {
            lemma_stmts_slots_all(body.stmts@, body.stmts@.len(), n@);
        }
        body.stmts.insert(0, read);
        proof {
            assert forall|i: int| 0 <= i < body.stmts@.len() implies #[trigger] stmt_slots_below(body.stmts@[i], n@) by {
                if i > 0 {
                    assert(body.stmts@[i] == old_stmts[i - 1]);
                } else {
                    assert(body.stmts@[i] == read);
                }
            }
            lemma_stmts_slots_all(body.stmts@, body.stmts@.len(), n@);
        }
        assert(block_slots_below(body, n@));
        let arr_arg = Expr::new(ExprKind::Local(arr_local), arr_ty, span);
        assert(expr_slots_below(arr_arg, n@));
        let args = vec![arr_arg];
        assert(exprs_slots_below(args@, 0, n@));
        assert(exprs_slots_below(args@, args@.len(), n@));
        let len_call = Expr::new(ExprKind::Call { callee: Callee::Builtin(Builtin::Len), args }, Type::Int, span);
        assert(expr_slots_below(len_call, n@));
        let zero = Expr::new(ExprKind::Int(0), Type::Int, span);
        assert(expr_slots_below(zero, n@));
        let for_stmt = Stmt::For { var: idx, end_var, start: zero, end: len_call, body };
        assert(stmt_slots_below(for_stmt, n@));
        let let_arr = Stmt::Let { local: arr_local, value: iterable };
        assert(stmt_slots_below(let_arr, n@));
        let pair = vec![let_arr, for_stmt];
        assert(stmts_slots_below(pair@, 0, n@));
        assert(stmts_slots_below(pair@, 1, n@));
        assert(stmts_slots_below(pair@, 2, n@));
        let wrapped = Block { stmts: pair, tail: None, ty: Type::Unit };
        assert(block_slots_below(wrapped, n@));
        let e = Expr::new(ExprKind::Block(wrapped), Type::Unit, span);
        assert(expr_slots_below(e, n@));
        // Wrap the array binding and the loop in a unit-typed block statement.
        Stmt::Expr(e)
    }

    /// Lowers an expression, attaching the type the checker computed for it.
    fn lower_expr(&mut self, ast: &ast::Ast, res: &Resolution, tc: &Typeck, expr: &ast::Expr, fuel: usize) -> (e: Expr)
        requires
            old(self).inv(),
            lowering_ctx(ast, res, tc),
        ensures
            final(self).inv(),
            final(self).grew(old(self)),
            expr_slots_below(e, final(self).bound()),
            e.ty == type_at(tc, expr.id),
            e.span == expr.span,
            lowered_form(res, tc, old(self).local_map@, expr, e.kind),
        decreases fuel, *expr, 2int,
    {
        let ghost start = *self;
        let ty = tc.type_of(expr.id);
        let kind = match &expr.kind {
            ast::ExprKind::Int(v) => ExprKind::Int(*v),
            ast::ExprKind::Float(t) => ExprKind::Float(t.clone()),
            ast::ExprKind::Bool(b) => ExprKind::Bool(*b),
            ast::ExprKind::Str(t) => ExprKind::Str(t.clone()),
            ast::ExprKind::Name(_) => self.lower_name(ast, res, tc, expr, fuel),
            ast::ExprKind::Unary { op, rhs } => {
                let r = self.lower_expr(ast, res, tc, rhs, fuel);
                ExprKind::Unary { op: *op, rhs: Box::new(r) }
            },
            ast::ExprKind::Binary { op, lhs, rhs } => {
                let l = self.lower_expr(ast, res, tc, lhs, fuel);
                let ghost mid = *self;
                let r = self.lower_expr(ast, res, tc, rhs, fuel);
                proof {
                    lemma_expr_slots_grow(l, mid.bound(), self.bound());
                    Lowerer::lemma_grew_trans(&start, &mid, self);
                }
                ExprKind::Binary { op: *op, lhs: Box::new(l), rhs: Box::new(r) }
            },
            ast::ExprKind::Call { .. } => self.lower_call(ast, res, tc, expr, fuel),
            ast::ExprKind::ArrayLit(elems) => {
                proof {
                    assert forall|i: int| 0 <= i < elems@.len() implies decreases_to!(*expr => #[trigger] elems@[i]) by {
                        assert(decreases_to!(*expr => elems@[i]));
                    }
                }
                ExprKind::ArrayLit(self.lower_list(ast, res, tc, expr, elems, fuel))
            },
            ast::ExprKind::Index { base, index } => {
                let b = self.lower_expr(ast, res, tc, base, fuel);
                let ghost mid = *self;
                let i = self.lower_expr(ast, res, tc, index, fuel);
                proof {
                    lemma_expr_slots_grow(b, mid.bound(), self.bound());
                    Lowerer::lemma_grew_trans(&start, &mid, self);
                }
                ExprKind::Index { base: Box::new(b), index: Box::new(i) }
            },
            ast::ExprKind::StructLit { .. } => self.lower_struct_lit(ast, res, tc, expr, fuel),
            ast::ExprKind::Field { base, field } => {
                let idx = field_index(tc, base, field.name.as_str());
                let b = self.lower_expr(ast, res, tc, base, fuel);
                ExprKind::GetField { base: Box::new(b), idx }
            },
            // Tuples share the struct runtime representation.
            ast::ExprKind::TupleLit(elems) => {
                proof {
                    assert forall|i: int| 0 <= i < elems@.len() implies decreases_to!(*expr => #[trigger] elems@[i]) by {
                        assert(decreases_to!(*expr => elems@[i]));
                    }
                }
                ExprKind::StructLit(self.lower_list(ast, res, tc, expr, elems, fuel))
            },
            ast::ExprKind::TupleIndex { base, index, .. } => {
                let b = self.lower_expr(ast, res, tc, base, fuel);
                ExprKind::GetField { base: Box::new(b), idx: *index as u32 }
            },
            ast::ExprKind::Assign { .. } => self.lower_assign(ast, res, tc, expr, fuel),
            ast::ExprKind::AssignOp { .. } => self.lower_assign_op(ast, res, tc, expr, fuel),
            ast::ExprKind::If(if_expr) => {
                let c = self.lower_expr(ast, res, tc, &if_expr.cond, fuel);
                let ghost m1 = *self;
                let t = self.lower_block(ast, res, tc, &if_expr.then_branch, fuel);
                let ghost m2 = *self;
                let el = match &if_expr.else_branch {
                    Some(e) => Some(Box::new(self.lower_expr(ast, res, tc, e, fuel))),
                    None => None,
                };
                proof {
                    lemma_expr_slots_grow(c, m1.bound(), self.bound());
                    lemma_block_slots_grow(t, m2.bound(), self.bound());
                    Lowerer::lemma_grew_trans(&start, &m1, &m2);
                    Lowerer::lemma_grew_trans(&start, &m2, self);
                }
                ExprKind::If { cond: Box::new(c), then_branch: t, else_branch: el }
            },
            ast::ExprKind::Match(_) => self.lower_match(ast, res, tc, expr, ty, fuel),
            ast::ExprKind::Block(block) => ExprKind::Block(self.lower_block(ast, res, tc, block, fuel)),
        };
        Expr::new(kind, ty, expr.span)
    }

    /// Lowers a list of expressions, in order.
    fn lower_list(
        &mut self,
        ast: &ast::Ast,
        res: &Resolution,
        tc: &Typeck,
        parent: &ast::Expr,
        es: &Vec<ast::Expr>,
        fuel: usize,
    ) -> (v: Vec<Expr>)
        requires
            old(self).inv(),
            lowering_ctx(ast, res, tc),
            forall|i: int| 0 <= i < es@.len() ==> decreases_to!(*parent => #[trigger] es@[i]),
        ensures
            final(self).inv(),
            final(self).grew(old(self)),
            v@.len() == es@.len(),
            exprs_slots_below(v@, v@.len(), final(self).bound()),
            forall|i: int| 0 <= i < v@.len() ==> (#[trigger] v@[i]).ty == type_at(tc, es@[i].id),
        decreases fuel, *parent, 0int,
    {
        let ghost start = *self;
        let mut v: Vec<Expr> = Vec::new();
        let mut i: usize = 0;
        while i < es.len()
            invariant
                self.inv(),
                self.grew(&start),
                lowering_ctx(ast, res, tc),
                forall|j: int| 0 <= j < es@.len() ==> decreases_to!(*parent => #[trigger] es@[j]),
                i <= es@.len(),
                v@.len() == i,
                exprs_slots_below(v@, i as nat, self.bound()),
                forall|j: int| 0 <= j < i ==> (#[trigger] v@[j]).ty == type_at(tc, es@[j].id),
            decreases es@.len() - i,
        {
            let ghost before = *self;
            assert(decreases_to!(*parent => es@[i as int]));
            let e = self.lower_expr(ast, res, tc, &es[i], fuel);
            proof {
                lemma_exprs_slots_grow(v@, i as nat, before.bound(), self.bound());
                lemma_exprs_slots_push(v@, e, i as nat, self.bound());
                Lowerer::lemma_grew_trans(&start, &before, self);
            }
            v.push(e);
            i = i + 1;
        }
        v
    }
}


/// The declaration index of `field` on the struct the expression `base`
/// has, or 0 when it names no field of a struct.
fn field_index(tc: &Typeck, base: &ast::Expr, field: &str) -> (idx: u32)
    ensures
        idx == field_slot(tc, base.id, field@),
{
    match tc.type_of(base.id) {
        Type::Struct(sid) => {
            if (sid as usize) < tc.structs.len() {
                let info = tc.struct_info(StructId(sid));
                match info.field(field) {
                    Some((i, _)) => {
                        proof {
                            let fs = tc.structs@[sid as int].fields@;
                            assert(first_field(fs, field@, i as int));
                            let c = choose|c: int| first_field(fs, field@, c);
                            assert(c == i as int);
                        }
                        i as u32
                    },
                    None => 0,
                }
            } else {
                0
            }
        },
        _ => 0,
    }
}

/// The literal a `match` arm's pattern compares against.
fn lower_pattern_literal(pattern: ast::Pattern, ty: Type, span: Span) -> (e: Expr)
    ensures
        expr_slots_below(e, 0),
        e.ty == ty,
        e.span == span,
{
    let kind = match pattern {
        ast::Pattern::Int(v) => ExprKind::Int(v),
        ast::Pattern::Bool(b) => ExprKind::Bool(b),
        // A wildcard never reaches here: it becomes the default, not a test.
        ast::Pattern::Wild => ExprKind::Bool(true),
    };
    Expr::new(kind, ty, span)
}

impl Lowerer {
    /// Lowers a name in value position: a local read, or an inlined constant.
    fn lower_name(&mut self, ast: &ast::Ast, res: &Resolution, tc: &Typeck, expr: &ast::Expr, fuel: usize) -> (k: ExprKind)
        requires
            old(self).inv(),
            lowering_ctx(ast, res, tc),
            expr.kind is Name,
        ensures
            final(self).inv(),
            final(self).grew(old(self)),
            kind_slots_below(k, final(self).bound()),
            lowered_form(res, tc, old(self).local_map@, expr, k),
        decreases fuel, *expr, 1int,
    {
        match res.use_of(expr.id) {
            Some(Res::Local(def)) => {
                let id = self.local_of(def);
                ExprKind::Local(id)
            },
            // Constants are inlined: each use becomes the constant's value.
            Some(Res::Const(id)) => {
                match tc.const_value(id) {
                    ConstValue::Int(v) => ExprKind::Int(*v),
                    ConstValue::Float(t) => ExprKind::Float(t.clone()),
                    ConstValue::Bool(b) => ExprKind::Bool(*b),
                    ConstValue::Str(t) => ExprKind::Str(t.clone()),
                    // A value computed with floating point is inlined as the
                    // expression that computes it.
                    ConstValue::Computed(_, _) => {
                        if fuel == 0 {
                            ExprKind::Int(0)
                        } else {
                            let idx = res.consts.item_index(id);
                            proof {
                                lemma_declared_kind(ast.items@, ast.items@.len(), 1);
                                assert(res.consts.items()[id.0 as int] == declared(ast.items@, ast.items@.len(), 1)[id.0 as int]);
                            }
                            match &ast.items[idx].kind {
                                ast::ItemKind::Const(decl) => {
                                    let e = self.lower_expr(ast, res, tc, &decl.value, fuel - 1);
                                    e.kind
                                },
                                _ => ExprKind::Int(0),
                            }
                        }
                    },
                }
            },
            // Unreachable for well-typed input (functions are not values).
            _ => ExprKind::Int(0),
        }
    }

    /// Lowers a call: its target, then its arguments in order.
    fn lower_call(&mut self, ast: &ast::Ast, res: &Resolution, tc: &Typeck, expr: &ast::Expr, fuel: usize) -> (k: ExprKind)
        requires
            old(self).inv(),
            lowering_ctx(ast, res, tc),
            expr.kind is Call,
        ensures
            final(self).inv(),
            final(self).grew(old(self)),
            kind_slots_below(k, final(self).bound()),
            lowered_form(res, tc, old(self).local_map@, expr, k),
        decreases fuel, *expr, 1int,
    {
        match &expr.kind {
            ast::ExprKind::Call { callee, args } => {
                let target = match res.use_of(callee.id) {
                    Some(Res::Fn(id)) => Callee::Fn(id),
                    Some(Res::Builtin(b)) => Callee::Builtin(b),
                    // Unreachable for well-typed input (no indirect calls).
                    _ => Callee::Fn(FnId(0)),
                };
                proof {
                    assert forall|i: int| 0 <= i < args@.len() implies decreases_to!(*expr => #[trigger] args@[i]) by {
                        assert(decreases_to!(*expr => args@[i]));
                    }
                }
                let args = self.lower_list(ast, res, tc, expr, args, fuel);
                ExprKind::Call { callee: target, args }
            },
            _ => ExprKind::Int(0),
        }
    }

    /// Builds a struct literal with field values placed in declaration order.
    fn lower_struct_lit(&mut self, ast: &ast::Ast, res: &Resolution, tc: &Typeck, expr: &ast::Expr, fuel: usize) -> (k: ExprKind)
        requires
            old(self).inv(),
            lowering_ctx(ast, res, tc),
            expr.kind is StructLit,
        ensures
            final(self).inv(),
            final(self).grew(old(self)),
            kind_slots_below(k, final(self).bound()),
            lowered_form(res, tc, old(self).local_map@, expr, k),
        decreases fuel, *expr, 1int,
    {
        let ghost start = *self;
        match &expr.kind {
            ast::ExprKind::StructLit { name, fields } => {
                let id = match res.structs.lookup(name.name.as_str()) {
                    Some(id) => id,
                    // Unreachable for well-typed input.
                    None => {
                        return ExprKind::Int(0);
                    },
                };
                let info = tc.struct_info(id);
                proof {
                    assert forall|i: int| 0 <= i < fields@.len() implies decreases_to!(*expr => #[trigger] fields@[i].value) by {
                        assert(decreases_to!(*expr => fields@[i]));
                        assert(decreases_to!(fields@[i] => fields@[i].value));
                    }
                }
                let mut values: Vec<Expr> = Vec::new();
                let mut j: usize = 0;
                while j < info.fields.len()
                    invariant
                        self.inv(),
                        self.grew(&start),
                        lowering_ctx(ast, res, tc),
                        j <= info.fields@.len(),
                        values@.len() == j,
                        exprs_slots_below(values@, j as nat, self.bound()),
                        forall|i: int| 0 <= i < fields@.len() ==> decreases_to!(*expr => #[trigger] fields@[i].value),
                    decreases info.fields@.len() - j,
                {
                    let field_name = &info.fields[j].0;
                    let mut k: usize = 0;
                    let mut found: Option<usize> = None;
                    while k < fields.len()
                        invariant
                            k <= fields@.len(),
                            found matches Some(f) ==> f < fields@.len(),
                        decreases fields@.len() - k,
                    {
                        if str_eq(fields[k].name.name.as_str(), field_name.as_str()) {
                            found = Some(k);
                            break;
                        }
                        k = k + 1;
                    }
                    let ghost before = *self;
                    let e = match found {
                        Some(f) => {
                            assert(decreases_to!(*expr => fields@[f as int].value));
                            self.lower_expr(ast, res, tc, &fields[f].value, fuel)
                        },
                        None => {
                            let e = Expr::new(ExprKind::Int(0), Type::Error, name.span);
                            assert(expr_slots_below(e, self.bound()));
                            e
                        },
                    };
                    proof {
                        lemma_exprs_slots_grow(values@, j as nat, before.bound(), self.bound());
                        lemma_exprs_slots_push(values@, e, j as nat, self.bound());
                        Lowerer::lemma_grew_trans(&start, &before, self);
                    }
                    values.push(e);
                    j = j + 1;
                }
                ExprKind::StructLit(values)
            },
            _ => ExprKind::Int(0),
        }
    }

    /// Lowers an assignment: to an array element, a struct field or tuple
    /// element, or a local slot.
    fn lower_assign(&mut self, ast: &ast::Ast, res: &Resolution, tc: &Typeck, expr: &ast::Expr, fuel: usize) -> (k: ExprKind)
        requires
            old(self).inv(),
            lowering_ctx(ast, res, tc),
            expr.kind is Assign,
        ensures
            final(self).inv(),
            final(self).grew(old(self)),
            kind_slots_below(k, final(self).bound()),
            lowered_form(res, tc, old(self).local_map@, expr, k),
        decreases fuel, *expr, 1int,
    {
        let ghost start = *self;
        match &expr.kind {
            ast::ExprKind::Assign { target, value } => {
                assert(decreases_to!(*expr => **target));
                match &target.kind {
                    // `a[i] = v` stores into the array.
                    ast::ExprKind::Index { base, index } => {
                        assert(decreases_to!(*expr => **base));
                        assert(decreases_to!(*expr => **index));
                        let b = self.lower_expr(ast, res, tc, base, fuel);
                        let ghost m1 = *self;
                        let i = self.lower_expr(ast, res, tc, index, fuel);
                        let ghost m2 = *self;
                        let v = self.lower_expr(ast, res, tc, value, fuel);
                        proof {
                            lemma_expr_slots_grow(b, m1.bound(), self.bound());
                            lemma_expr_slots_grow(i, m2.bound(), self.bound());
                            Lowerer::lemma_grew_trans(&start, &m1, &m2);
                            Lowerer::lemma_grew_trans(&start, &m2, self);
                        }
                        ExprKind::SetIndex { base: Box::new(b), index: Box::new(i), value: Box::new(v) }
                    },
                    // `s.f = v` stores into the struct.
                    ast::ExprKind::Field { base, field } => {
                        assert(decreases_to!(*expr => **base));
                        let idx = field_index(tc, base, field.name.as_str());
                        let b = self.lower_expr(ast, res, tc, base, fuel);
                        let ghost m1 = *self;
                        let v = self.lower_expr(ast, res, tc, value, fuel);
                        proof {
                            lemma_expr_slots_grow(b, m1.bound(), self.bound());
                            Lowerer::lemma_grew_trans(&start, &m1, self);
                        }
                        ExprKind::SetField { base: Box::new(b), idx, value: Box::new(v) }
                    },
                    // `t.0 = v` too: tuples reuse the struct runtime.
                    ast::ExprKind::TupleIndex { base, index, .. } => {
                        assert(decreases_to!(*expr => **base));
                        let b = self.lower_expr(ast, res, tc, base, fuel);
                        let ghost m1 = *self;
                        let v = self.lower_expr(ast, res, tc, value, fuel);
                        proof {
                            lemma_expr_slots_grow(b, m1.bound(), self.bound());
                            Lowerer::lemma_grew_trans(&start, &m1, self);
                        }
                        ExprKind::SetField { base: Box::new(b), idx: *index as u32, value: Box::new(v) }
                    },
                    _ => {
                        let local = match res.use_of(target.id) {
                            Some(Res::Local(def)) => self.local_of(def),
                            _ => LocalId(0),
                        };
                        let v = self.lower_expr(ast, res, tc, value, fuel);
                        ExprKind::Assign { local, value: Box::new(v) }
                    },
                }
            },
            _ => ExprKind::Int(0),
        }
    }

    /// Desugars `target op= value` into `target = target op value`.
    fn lower_assign_op(&mut self, ast: &ast::Ast, res: &Resolution, tc: &Typeck, expr: &ast::Expr, fuel: usize) -> (k: ExprKind)
        requires
            old(self).inv(),
            lowering_ctx(ast, res, tc),
            expr.kind is AssignOp,
        ensures
            final(self).inv(),
            final(self).grew(old(self)),
            kind_slots_below(k, final(self).bound()),
            lowered_form(res, tc, old(self).local_map@, expr, k),
        decreases fuel, *expr, 1int,
    {
        match &expr.kind {
            ast::ExprKind::AssignOp { target, op, value } => {
                let local = match res.use_of(target.id) {
                    Some(Res::Local(def)) => self.local_of(def),
                    _ => LocalId(0),
                };
                let ty = tc.type_of(target.id);
                let lhs = Expr::new(ExprKind::Local(local), ty, target.span);
                let rhs = self.lower_expr(ast, res, tc, value, fuel);
                assert(local.0 < self.bound());
                assert(expr_slots_below(lhs, self.bound()));
                let combined = Expr::new(
                    ExprKind::Binary { op: *op, lhs: Box::new(lhs), rhs: Box::new(rhs) },
                    ty,
                    target.span.to(value.span),
                );
                assert(expr_slots_below(combined, self.bound()));
                ExprKind::Assign { local, value: Box::new(combined) }
            },
            _ => ExprKind::Int(0),
        }
    }

    /// Desugars `match scrutinee { pat => body, ... }` into a binding for the
    /// scrutinee followed by a chain of `if`/`else`:
    ///
    /// ```text
    /// { let <m> = scrutinee;
    ///   if <m> == p0 { b0 } else if <m> == p1 { b1 } else { default } }
    /// ```
    ///
    /// The default is the wildcard arm's body, or, with no wildcard, the final
    /// arm's body unconditionally.
    fn lower_match(&mut self, ast: &ast::Ast, res: &Resolution, tc: &Typeck, expr: &ast::Expr, ty: Type, fuel: usize) -> (k: ExprKind)
        requires
            old(self).inv(),
            lowering_ctx(ast, res, tc),
            expr.kind is Match,
        ensures
            final(self).inv(),
            final(self).grew(old(self)),
            kind_slots_below(k, final(self).bound()),
            lowered_form(res, tc, old(self).local_map@, expr, k),
        decreases fuel, *expr, 1int,
    {
        let ghost start = *self;
        let m = match &expr.kind {
            ast::ExprKind::Match(m) => m,
            _ => {
                return ExprKind::Int(0);
            },
        };
        let span = expr.span;
        assert(decreases_to!(*expr => *m.scrutinee));
        let scrut = self.lower_expr(ast, res, tc, &m.scrutinee, fuel);
        let scrut_ty = scrut.ty;
        let ghost m1 = *self;
        let tmp = self.alloc_synthetic("<match>", scrut_ty);
        // Split the arms into conditional ones and a single default body.
        let mut wild: Option<usize> = None;
        let mut w: usize = 0;
        while w < m.arms.len()
            invariant
                w <= m.arms@.len(),
                wild matches Some(i) ==> i < m.arms@.len(),
            decreases m.arms@.len() - w,
        {
            if m.arms[w].pattern == ast::Pattern::Wild {
                wild = Some(w);
                break;
            }
            w = w + 1;
        }
        let (n_cond, default) = match wild {
            Some(i) => (i, Some(i)),
            None => if m.arms.len() > 0 {
                (m.arms.len() - 1, Some(m.arms.len() - 1))
            } else {
                (0, None)
            },
        };
        let ghost m2 = *self;
        // The chain is built from the back so each `if` nests inside the
        // previous arm's `else`.
        let mut else_expr: Option<Box<Expr>> = match default {
            Some(d) => {
                assert(decreases_to!(*expr => m.arms@[d as int]));
                assert(decreases_to!(m.arms@[d as int] => m.arms@[d as int].body));
                Some(Box::new(self.lower_expr(ast, res, tc, &m.arms[d].body, fuel)))
            },
            None => None,
        };
        proof {
            Lowerer::lemma_grew_trans(&start, &m1, &m2);
            Lowerer::lemma_grew_trans(&start, &m2, self);
        }
        let mut j: usize = n_cond;
        while j > 0
            invariant
                self.inv(),
                self.grew(&start),
                lowering_ctx(ast, res, tc),
                j <= n_cond <= m.arms@.len(),
                tmp.0 < self.bound(),
                m1.locals@.len() <= self.locals@.len(),
                else_expr matches Some(e) ==> expr_slots_below(*e, self.bound()),
                forall|i: int| 0 <= i < m.arms@.len() ==> decreases_to!(*expr => #[trigger] m.arms@[i]),
            decreases j,
        {
            j = j - 1;
            let arm = &m.arms[j];
            let ghost before = *self;
            assert(decreases_to!(*arm => arm.body));
            let body = self.lower_expr(ast, res, tc, &arm.body, fuel);
            let body_ty = body.ty;
            let then_branch = Block { stmts: Vec::new(), tail: Some(Box::new(body)), ty: body_ty };
            let lit = lower_pattern_literal(arm.pattern, scrut_ty, arm.span);
            proof {
                lemma_expr_slots_grow(lit, 0, self.bound());
            }
            let cond = Expr::new(
                ExprKind::Binary {
                    op: BinOp::Eq,
                    lhs: Box::new(Expr::new(ExprKind::Local(tmp), scrut_ty, arm.span)),
                    rhs: Box::new(lit),
                },
                Type::Bool,
                arm.span,
            );
            proof {
                if else_expr is Some {
                    lemma_expr_slots_grow(*else_expr->0, before.bound(), self.bound());
                }
                Lowerer::lemma_grew_trans(&start, &before, self);
                assert(expr_slots_below(Expr { kind: ExprKind::Local(tmp), ty: scrut_ty, span: arm.span }, self.bound()));
                assert(expr_slots_below(cond, self.bound()));
                assert(stmts_slots_below(then_branch.stmts@, 0, self.bound()));
                assert(block_slots_below(then_branch, self.bound()));
            }
            let if_expr = Expr::new(ExprKind::If { cond: Box::new(cond), then_branch, else_branch: else_expr }, ty, arm.span);
            assert(expr_slots_below(if_expr, self.bound()));
            else_expr = Some(Box::new(if_expr));
        }
        // The scrutinee is bound first so it is evaluated exactly once. An
        // empty match (rejected by the checker) lowers to a unit placeholder.
        let tail = match else_expr {
            Some(e) => e,
            None => {
                let empty = Block { stmts: Vec::new(), tail: None, ty: Type::Unit };
                assert(stmts_slots_below(empty.stmts@, 0, self.bound()));
                assert(block_slots_below(empty, self.bound()));
                let unit = Expr::new(ExprKind::Block(empty), Type::Unit, span);
                assert(expr_slots_below(unit, self.bound()));
                Box::new(unit)
            },
        };
        proof {
            lemma_expr_slots_grow(scrut, m1.bound(), self.bound());
        }
        let n = Ghost(self.bound());
        assert(expr_slots_below(*tail, n@));
        let bind = Stmt::Let { local: tmp, value: scrut };
        assert(stmt_slots_below(bind, n@));
        let stmts = vec![bind];
        assert(stmts_slots_below(stmts@, 0, n@));
        assert(stmts_slots_below(stmts@, 1, n@));
        let b = Block { stmts, tail: Some(tail), ty };
        assert(block_slots_below(b, n@));
        ExprKind::Block(b)
    }

    /// Lowers one function: its parameters become the leading slots, then
    /// the body is lowered after them.
    fn lower_fn(
        &mut self,
        ast: &ast::Ast,
        res: &Resolution,
        tc: &Typeck,
        fn_id: FnId,
        decl: &ast::FnDecl,
        fuel: usize,
    ) -> (f: Function)
        requires
            old(self).inv(),
            lowering_ctx(ast, res, tc),
            fn_id.0 < tc.signatures@.len(),
        ensures
            final(self).inv(),
            function_wf(f),
            f.name@ == decl.name.name@,
            f.ret == tc.signatures@[fn_id.0 as int].ret,
            f.param_count == decl.params@.len(),
            forall|i: int| 0 <= i < decl.params@.len() ==> {
                &&& (#[trigger] f.locals@[i]).name@ == decl.params@[i].name.name@
                &&& f.locals@[i].ty == local_type_at(tc, decl.params@[i].id)
            },
    {
        self.locals = Vec::new();
        self.local_map = NodeMap::new();
        let ghost start = *self;
        let mut p: usize = 0;
        while p < decl.params.len()
            invariant
                self.inv(),
                self.grew(&start),
                p <= decl.params@.len(),
                self.locals@.len() == p,
                forall|i: int| 0 <= i < p ==> {
                    &&& (#[trigger] self.locals@[i]).name@ == decl.params@[i].name.name@
                    &&& self.locals@[i].ty == local_type_at(tc, decl.params@[i].id)
                },
            decreases decl.params@.len() - p,
        {
            let param = &decl.params[p];
            let ghost before = *self;
            self.alloc_local(param.id, param.name.name.as_str(), tc.local_type(param.id));
            proof {
                Lowerer::lemma_grew_trans(&start, &before, self);
                assert forall|i: int| 0 <= i < p + 1 implies {
                    &&& (#[trigger] self.locals@[i]).name@ == decl.params@[i].name.name@
                    &&& self.locals@[i].ty == local_type_at(tc, decl.params@[i].id)
                } by {
                    if i < p {
                        assert(self.locals@[i] == before.locals@[i]);
                    }
                }
            }
            p = p + 1;
        }
        let param_count = self.locals.len();
        let ret = tc.signature(fn_id).ret;
        let ghost mid = *self;
        let body = self.lower_block(ast, res, tc, &decl.body, fuel);
        let mut locals: Vec<LocalDecl> = Vec::new();
        std::mem::swap(&mut locals, &mut self.locals);
        proof {
            assert forall|i: int| 0 <= i < decl.params@.len() implies {
                &&& (#[trigger] locals@[i]).name@ == decl.params@[i].name.name@
                &&& locals@[i].ty == local_type_at(tc, decl.params@[i].id)
            } by {
                assert(locals@[i] == mid.locals@[i]);
            }
        }
        self.local_map = NodeMap::new();
        Function { name: decl.name.name.clone(), locals, param_count, ret, body }
    }
}

/// Lowers a type-checked program to HIR: one function per declared function,
/// in declaration order, and the entry point the checker found (the first
/// function if it found none).
pub fn lower(ast: &ast::Ast, res: &Resolution, tc: &Typeck) -> (hir: Hir)
    requires
        lowering_ctx(ast, res, tc),
    ensures
        hir.functions@.len() == res.functions.items().len(),
        forall|i: int| 0 <= i < hir.functions@.len() ==> {
            let decl = ast.items@[res.functions.items()[i] as int].kind->Fn_0;
            &&& ast.items@[res.functions.items()[i] as int].kind is Fn
            &&& function_wf(#[trigger] hir.functions@[i])
            &&& hir.functions@[i].name@ == decl.name.name@
            &&& hir.functions@[i].ret == tc.signatures@[i].ret
            &&& hir.functions@[i].param_count == decl.params@.len()
        },
        hir.main == match tc.main {
            Some(m) => m,
            None => FnId(0),
        },
{
    let mut lowerer = Lowerer { locals: Vec::new(), local_map: NodeMap::new() };
    let fns = res.functions.iter();
    let fuel = res.consts.len();
    proof {
        res.functions.lemma_wf();
        lemma_declared_kind(ast.items@, ast.items@.len(), 0);
    }
    let mut functions: Vec<Function> = Vec::new();
    let mut i: usize = 0;
    while i < fns.len()
        invariant
            lowerer.inv(),
            lowering_ctx(ast, res, tc),
            fns@.len() == res.functions.items().len(),
            forall|k: int| 0 <= k < fns@.len() ==> #[trigger] fns@[k] == (FnId(k as u32), res.functions.items()[k]),
            forall|k: int| 0 <= k < res.functions.items().len() ==> {
                &&& (#[trigger] res.functions.items()[k]) < ast.items@.len()
                &&& ast.items@[res.functions.items()[k] as int].kind is Fn
            },
            res.functions.items().len() <= u32::MAX,
            i <= fns@.len(),
            functions@.len() == i,
            forall|k: int| 0 <= k < i ==> {
                let decl = ast.items@[res.functions.items()[k] as int].kind->Fn_0;
                &&& function_wf(#[trigger] functions@[k])
                &&& functions@[k].name@ == decl.name.name@
                &&& functions@[k].ret == tc.signatures@[k].ret
                &&& functions@[k].param_count == decl.params@.len()
            },
        decreases fns@.len() - i,
    {
        let (fn_id, item_idx) = fns[i];
        match &ast.items[item_idx].kind {
            ast::ItemKind::Fn(decl) => {
                let f = lowerer.lower_fn(ast, res, tc, fn_id, decl, fuel);
                functions.push(f);
            },
            _ => {},
        }
        i = i + 1;
    }
    // `main` is present in a well-typed program; fall back to the first
    // function only if it is not.
    let main = match tc.main {
        Some(m) => m,
        None => FnId(0),
    };
    Hir { functions, main }
}

} // verus!
