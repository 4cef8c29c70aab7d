//! Name resolution: binds every identifier *use* to the *definition* it refers
//! to, before type checking runs.
//!
//! The resolver walks the AST with a stack of lexical scopes. It does not
//! mutate the tree; it produces a [`Resolution`] of side tables keyed by
//! [`NodeId`]:
//!
//! * `uses` maps each `Name` expression to a [`Res`] (local, user function,
//!   constant, or builtin).
//! * `locals` maps each binding's definition node to its [`LocalInfo`].
//! * `functions`, `consts` and `structs` are the global name tables.
//!
//! Globals are collected in a first pass so items may refer to items declared
//! later and to themselves. Within a function, parameters and `let` bindings
//! live in nested scopes; a `let` becomes visible only *after* its
//! initialiser, so `let x = x;` sees the outer `x`. Re-binding a name in the
//! same scope shadows it; duplicate *parameters* are an error.

use vstd::prelude::*;
use vstd::string::*;

use crate::diagnostics::{diag_codes, Diagnostic, Diagnostics};
use crate::errors::DiagCode;
use crate::lexer::extends;
use crate::node_map::NodeMap;
use crate::parser::ast::{Ast, Block, Expr, ExprKind, FnDecl, ConstDecl, Item, ItemKind, NodeId, Param, Stmt, StmtKind};
use crate::sema::types::{Builtin, builtin_name};
use crate::span::Span;
use crate::suggest::{closest, lev, searchable, spec_threshold};
use crate::text::{cat3, covers, drawn_from, sorted_unique, str_eq};

verus! {

/// Identifies a user-defined function by dense index.
#[derive(Clone, Copy, Debug, PartialEq, Eq, Hash, Structural)]
pub struct FnId(pub u32);

/// Identifies a top-level constant by dense index.
#[derive(Clone, Copy, Debug, PartialEq, Eq, Hash, Structural)]
pub struct ConstId(pub u32);

/// Identifies a declared struct by dense index.
#[derive(Clone, Copy, Debug, PartialEq, Eq, Hash, Structural)]
pub struct StructId(pub u32);

/// What a name refers to once resolved.
#[derive(Clone, Copy, Debug, PartialEq, Eq, Structural)]
pub enum Res {
    /// A parameter or `let` binding, identified by its definition's [`NodeId`].
    Local(NodeId),
    /// A user-declared function.
    Fn(FnId),
    /// A top-level constant.
    Const(ConstId),
    /// A compiler builtin.
    Builtin(Builtin),
}

/// Mutability and provenance of a local binding, recorded at its definition.
#[derive(Clone, Debug)]
pub struct LocalInfo {
    pub name: String,
    pub mutable: bool,
    pub span: Span,
}

/// The texts of a sequence of strings.
pub open spec fn texts(v: Seq<String>) -> Seq<Seq<char>> {
    v.map_values(|s: String| s@)
}

/// No text occurs twice.
pub open spec fn distinct_texts(names: Seq<Seq<char>>) -> bool {
    forall|i: int, j: int| 0 <= i < j < names.len() ==> names[i] != names[j]
}

/// Names bound at the top level, in declaration order, each with the index of
/// the item that declares it.
#[derive(Debug)]
struct NameTable {
    names: Vec<String>,
    items: Vec<usize>,
}

impl NameTable {
    closed spec fn spec_names(&self) -> Seq<Seq<char>> {
        texts(self.names@)
    }

    closed spec fn spec_items(&self) -> Seq<usize> {
        self.items@
    }

    closed spec fn wf(&self) -> bool {
        &&& self.names@.len() == self.items@.len()
        &&& self.names@.len() <= u32::MAX
        &&& distinct_texts(self.spec_names())
    }

    fn new() -> (t: NameTable)
        ensures
            t.wf(),
            t.spec_names() == Seq::<Seq<char>>::empty(),
            t.spec_items() == Seq::<usize>::empty(),
    {
        let t = NameTable { names: Vec::new(), items: Vec::new() };
        assert(t.spec_names() =~= Seq::<Seq<char>>::empty());
        t
    }

    /// The position of `name`, if bound.
    fn lookup(&self, name: &str) -> (r: Option<u32>)
        requires
            self.wf(),
        ensures
            r matches Some(i) ==> i < self.spec_names().len() && self.spec_names()[i as int] == name@,
            r is None <==> !self.spec_names().contains(name@),
    {
        let mut i: usize = 0;
        while i < self.names.len()
            invariant
                self.wf(),
                0 <= i <= self.names@.len(),
                forall|k: int| 0 <= k < i ==> self.spec_names()[k] != name@,
            decreases self.names@.len() - i,
        {
            if str_eq(self.names[i].as_str(), name) {
                assert(self.spec_names()[i as int] == name@);
                return Some(i as u32);
            }
            i = i + 1;
        }
        None
    }

    /// Binds a new name, declared by item `idx`.
    fn push(&mut self, name: String, idx: usize)
        requires
            old(self).wf(),
            !old(self).spec_names().contains(name@),
            old(self).spec_names().len() < u32::MAX,
        ensures
            final(self).wf(),
            final(self).spec_names() == old(self).spec_names().push(name@),
            final(self).spec_items() == old(self).spec_items().push(idx),
    {
        let ghost before = self.spec_names();
        self.names.push(name);
        self.items.push(idx);
        assert(self.spec_names() =~= before.push(name@));
    }

    /// The `(index, item index)` pairs in declaration order.
    fn pairs(&self) -> (v: Vec<(u32, usize)>)
        requires
            self.wf(),
        ensures
            v@.len() == self.spec_items().len(),
            forall|i: int| 0 <= i < v@.len() ==> #[trigger] v@[i] == (i as u32, self.spec_items()[i]),
    {
        let mut v: Vec<(u32, usize)> = Vec::new();
        let mut i: usize = 0;
        while i < self.items.len()
            invariant
                self.wf(),
                0 <= i <= self.items@.len(),
                v@.len() == i,
                forall|k: int| 0 <= k < i ==> #[trigger] v@[k] == (k as u32, self.spec_items()[k]),
            decreases self.items@.len() - i,
        {
            v.push((i as u32, self.items[i]));
            i = i + 1;
        }
        v
    }
}

/// The global table of user functions.
#[derive(Debug)]
pub struct FunctionTable {
    table: NameTable,
}

/// The global table of top-level constants.
#[derive(Debug)]
pub struct ConstTable {
    table: NameTable,
}

/// The global table of declared structs.
#[derive(Debug)]
pub struct StructTable {
    table: NameTable,
}

impl FunctionTable {
    /// Function names, indexed by [`FnId`].
    pub closed spec fn names(&self) -> Seq<Seq<char>> {
        self.table.spec_names()
    }

    /// `Ast::items` positions, indexed by [`FnId`].
    pub closed spec fn items(&self) -> Seq<usize> {
        self.table.spec_items()
    }

    pub closed spec fn wf(&self) -> bool {
        self.table.wf()
    }

    /// Every table has as many item positions as names, and no name twice.
    pub proof fn lemma_wf(&self)
        requires
            self.wf(),
        ensures
            self.names().len() == self.items().len(),
            self.names().len() <= u32::MAX,
            distinct_texts(self.names()),
    {
    }

    /// The [`FnId`] a name binds to, if any.
    pub fn lookup(&self, name: &str) -> (r: Option<FnId>)
        requires
            self.wf(),
        ensures
            r matches Some(id) ==> id.0 < self.names().len() && self.names()[id.0 as int] == name@,
            r is None <==> !self.names().contains(name@),
    {
        match self.table.lookup(name) {
            Some(i) => Some(FnId(i)),
            None => None,
        }
    }

    /// The `Ast::items` index of a function.
    pub fn item_index(&self, id: FnId) -> (r: usize)
        requires
            self.wf(),
            id.0 < self.items().len(),
        ensures
            r == self.items()[id.0 as int],
    {
        self.table.items[id.0 as usize]
    }

    /// Number of registered functions.
    pub fn len(&self) -> (n: usize)
        ensures
            n == self.items().len(),
    {
        self.table.items.len()
    }

    pub fn is_empty(&self) -> (b: bool)
        ensures
            b == (self.items().len() == 0),
    {
        self.table.items.len() == 0
    }

    /// The `(FnId, item index)` pairs in declaration order.
    pub fn iter(&self) -> (v: Vec<(FnId, usize)>)
        requires
            self.wf(),
        ensures
            v@.len() == self.items().len(),
            forall|i: int| 0 <= i < v@.len() ==> #[trigger] v@[i] == (FnId(i as u32), self.items()[i]),
    {
        let pairs = self.table.pairs();
        let mut v: Vec<(FnId, usize)> = Vec::new();
        let mut i: usize = 0;
        while i < pairs.len()
            invariant
                0 <= i <= pairs@.len(),
                pairs@.len() == self.items().len(),
                forall|k: int| 0 <= k < pairs@.len() ==> #[trigger] pairs@[k] == (k as u32, self.items()[k]),
                v@.len() == i,
                forall|k: int| 0 <= k < i ==> #[trigger] v@[k] == (FnId(k as u32), self.items()[k]),
            decreases pairs@.len() - i,
        {
            let (a, b) = pairs[i];
            v.push((FnId(a), b));
            i = i + 1;
        }
        v
    }
}

impl ConstTable {
    /// Constant names, indexed by [`ConstId`].
    pub closed spec fn names(&self) -> Seq<Seq<char>> {
        self.table.spec_names()
    }

    /// `Ast::items` positions, indexed by [`ConstId`].
    pub closed spec fn items(&self) -> Seq<usize> {
        self.table.spec_items()
    }

    pub closed spec fn wf(&self) -> bool {
        self.table.wf()
    }

    /// Every table has as many item positions as names, and no name twice.
    pub proof fn lemma_wf(&self)
        requires
            self.wf(),
        ensures
            self.names().len() == self.items().len(),
            self.names().len() <= u32::MAX,
            distinct_texts(self.names()),
    {
    }

    /// The [`ConstId`] a name binds to, if any.
    pub fn lookup(&self, name: &str) -> (r: Option<ConstId>)
        requires
            self.wf(),
        ensures
            r matches Some(id) ==> id.0 < self.names().len() && self.names()[id.0 as int] == name@,
            r is None <==> !self.names().contains(name@),
    {
        match self.table.lookup(name) {
            Some(i) => Some(ConstId(i)),
            None => None,
        }
    }

    /// The `Ast::items` index of a constant.
    pub fn item_index(&self, id: ConstId) -> (r: usize)
        requires
            self.wf(),
            id.0 < self.items().len(),
        ensures
            r == self.items()[id.0 as int],
    {
        self.table.items[id.0 as usize]
    }

    /// Number of registered constants.
    pub fn len(&self) -> (n: usize)
        ensures
            n == self.items().len(),
    {
        self.table.items.len()
    }

    pub fn is_empty(&self) -> (b: bool)
        ensures
            b == (self.items().len() == 0),
    {
        self.table.items.len() == 0
    }

    /// The `(ConstId, item index)` pairs in declaration order.
    pub fn iter(&self) -> (v: Vec<(ConstId, usize)>)
        requires
            self.wf(),
        ensures
            v@.len() == self.items().len(),
            forall|i: int| 0 <= i < v@.len() ==> #[trigger] v@[i] == (ConstId(i as u32), self.items()[i]),
    {
        let pairs = self.table.pairs();
        let mut v: Vec<(ConstId, usize)> = Vec::new();
        let mut i: usize = 0;
        while i < pairs.len()
            invariant
                0 <= i <= pairs@.len(),
                pairs@.len() == self.items().len(),
                forall|k: int| 0 <= k < pairs@.len() ==> #[trigger] pairs@[k] == (k as u32, self.items()[k]),
                v@.len() == i,
                forall|k: int| 0 <= k < i ==> #[trigger] v@[k] == (ConstId(k as u32), self.items()[k]),
            decreases pairs@.len() - i,
        {
            let (a, b) = pairs[i];
            v.push((ConstId(a), b));
            i = i + 1;
        }
        v
    }
}

impl StructTable {
    /// Struct names, indexed by [`StructId`].
    pub closed spec fn names(&self) -> Seq<Seq<char>> {
        self.table.spec_names()
    }

    /// `Ast::items` positions, indexed by [`StructId`].
    pub closed spec fn items(&self) -> Seq<usize> {
        self.table.spec_items()
    }

    pub closed spec fn wf(&self) -> bool {
        self.table.wf()
    }

    /// Every table has as many item positions as names, and no name twice.
    pub proof fn lemma_wf(&self)
        requires
            self.wf(),
        ensures
            self.names().len() == self.items().len(),
            self.names().len() <= u32::MAX,
            distinct_texts(self.names()),
    {
    }

    /// The [`StructId`] a name binds to, if any.
    pub fn lookup(&self, name: &str) -> (r: Option<StructId>)
        requires
            self.wf(),
        ensures
            r matches Some(id) ==> id.0 < self.names().len() && self.names()[id.0 as int] == name@,
            r is None <==> !self.names().contains(name@),
    {
        match self.table.lookup(name) {
            Some(i) => Some(StructId(i)),
            None => None,
        }
    }

    /// The `Ast::items` index of a struct.
    pub fn item_index(&self, id: StructId) -> (r: usize)
        requires
            self.wf(),
            id.0 < self.items().len(),
        ensures
            r == self.items()[id.0 as int],
    {
        self.table.items[id.0 as usize]
    }

    pub fn len(&self) -> (n: usize)
        ensures
            n == self.items().len(),
    {
        self.table.items.len()
    }

    pub fn is_empty(&self) -> (b: bool)
        ensures
            b == (self.items().len() == 0),
    {
        self.table.items.len() == 0
    }

    /// The `(StructId, item index)` pairs in declaration order.
    pub fn iter(&self) -> (v: Vec<(StructId, usize)>)
        requires
            self.wf(),
        ensures
            v@.len() == self.items().len(),
            forall|i: int| 0 <= i < v@.len() ==> #[trigger] v@[i] == (StructId(i as u32), self.items()[i]),
    {
        let pairs = self.table.pairs();
        let mut v: Vec<(StructId, usize)> = Vec::new();
        let mut i: usize = 0;
        while i < pairs.len()
            invariant
                0 <= i <= pairs@.len(),
                pairs@.len() == self.items().len(),
                forall|k: int| 0 <= k < pairs@.len() ==> #[trigger] pairs@[k] == (k as u32, self.items()[k]),
                v@.len() == i,
                forall|k: int| 0 <= k < i ==> #[trigger] v@[k] == (StructId(k as u32), self.items()[k]),
            decreases pairs@.len() - i,
        {
            let (a, b) = pairs[i];
            v.push((StructId(a), b));
            i = i + 1;
        }
        v
    }
}

/// The product of resolution: the side tables later phases consume.
#[derive(Debug)]
pub struct Resolution {
    pub uses: NodeMap<Res>,
    pub locals: NodeMap<LocalInfo>,
    pub functions: FunctionTable,
    pub consts: ConstTable,
    pub structs: StructTable,
}

/// A resolution names an existing function or constant.
pub open spec fn res_in_bounds(r: Res, n_fns: nat, n_consts: nat) -> bool {
    match r {
        Res::Fn(f) => f.0 < n_fns,
        Res::Const(c) => c.0 < n_consts,
        _ => true,
    }
}

impl Resolution {
    /// Every table is well formed, and every use names an existing item.
    pub open spec fn wf(&self) -> bool {
        &&& self.uses.wf()
        &&& self.locals.wf()
        &&& self.functions.wf()
        &&& self.consts.wf()
        &&& self.structs.wf()
        &&& forall|k: NodeId| #[trigger] self.uses@.contains_key(k) ==> res_in_bounds(
            self.uses@[k],
            self.functions.names().len(),
            self.consts.names().len(),
        )
    }

    /// The resolution of a `Name` expression, by its node id.
    pub fn use_of(&self, id: NodeId) -> (r: Option<Res>)
        ensures
            r == (if self.uses@.contains_key(id) {
                Some(self.uses@[id])
            } else {
                None
            }),
    {
        match self.uses.get(id) {
            Some(r) => Some(*r),
            None => None,
        }
    }

    /// The binding info for a definition node (`let`/param), by its node id.
    pub fn local(&self, id: NodeId) -> (r: Option<&LocalInfo>)
        ensures
            r == (if self.locals@.contains_key(id) {
                Some(&self.locals@[id])
            } else {
                None
            }),
    {
        self.locals.get(id)
    }
}

// ---- the specification of resolution ----

/// The name an item declares.
pub open spec fn item_name(item: Item) -> Seq<char> {
    match item.kind {
        ItemKind::Fn(d) => d.name.name@,
        ItemKind::Const(d) => d.name.name@,
        ItemKind::Struct(d) => d.name.name@,
    }
}

/// The kind of an item: 0 for a function, 1 for a constant, 2 for a struct.
pub open spec fn item_tag(item: Item) -> u8 {
    match item.kind {
        ItemKind::Fn(_) => 0,
        ItemKind::Const(_) => 1,
        ItemKind::Struct(_) => 2,
    }
}

/// Whether item `k` is the first to declare its name (functions, constants
/// and structs share one namespace).
pub open spec fn first_declaration(items: Seq<Item>, k: int) -> bool {
    forall|j: int| 0 <= j < k ==> item_name(items[j]) != item_name(items[k])
}

/// The positions, among the first `n` items, of the first declarations of
/// items of kind `tag`, in order.
pub open spec fn declared(items: Seq<Item>, n: nat, tag: u8) -> Seq<usize>
    decreases n,
{
    if n == 0 {
        Seq::empty()
    } else {
        let prev = declared(items, (n - 1) as nat, tag);
        if item_tag(items[n - 1]) == tag && first_declaration(items, n - 1) {
            prev.push((n - 1) as usize)
        } else {
            prev
        }
    }
}

/// The names declared by the items at the given positions.
pub open spec fn names_at(items: Seq<Item>, pos: Seq<usize>) -> Seq<Seq<char>> {
    pos.map_values(|k: usize| item_name(items[k as int]))
}

/// The number of items among the first `n` that redeclare an earlier name.
pub open spec fn redeclarations(items: Seq<Item>, n: nat) -> nat
    decreases n,
{
    if n == 0 {
        0
    } else {
        redeclarations(items, (n - 1) as nat) + if first_declaration(items, n - 1) {
            0nat
        } else {
            1nat
        }
    }
}

/// The tables of `res` are those the items declare.
pub open spec fn tables_match(res: &Resolution, items: Seq<Item>) -> bool {
    &&& res.functions.items() == declared(items, items.len(), 0)
    &&& res.functions.names() == names_at(items, declared(items, items.len(), 0))
    &&& res.consts.items() == declared(items, items.len(), 1)
    &&& res.consts.names() == names_at(items, declared(items, items.len(), 1))
    &&& res.structs.items() == declared(items, items.len(), 2)
    &&& res.structs.names() == names_at(items, declared(items, items.len(), 2))
}

/// A scope stack, by the texts of its bindings, innermost scope last.
pub open spec fn scopes_view(scopes: Seq<Vec<(String, NodeId)>>) -> Seq<Seq<(Seq<char>, NodeId)>> {
    scopes.map_values(|sc: Vec<(String, NodeId)>| sc@.map_values(|b: (String, NodeId)| (b.0@, b.1)))
}

/// The latest binding of `name` in one scope.
pub open spec fn scope_lookup(scope: Seq<(Seq<char>, NodeId)>, name: Seq<char>) -> Option<NodeId>
    decreases scope.len(),
{
    if scope.len() == 0 {
        None
    } else if scope.last().0 == name {
        Some(scope.last().1)
    } else {
        scope_lookup(scope.drop_last(), name)
    }
}

/// The nearest enclosing binding of `name`.
pub open spec fn scopes_lookup(scopes: Seq<Seq<(Seq<char>, NodeId)>>, name: Seq<char>) -> Option<NodeId>
    decreases scopes.len(),
{
    if scopes.len() == 0 {
        None
    } else {
        match scope_lookup(scopes.last(), name) {
            Some(d) => Some(d),
            None => scopes_lookup(scopes.drop_last(), name),
        }
    }
}

/// Whether `r` is what `name` refers to: locals first, then functions, then
/// constants, then builtins.
pub open spec fn resolves_to(
    scopes: Seq<Seq<(Seq<char>, NodeId)>>,
    fns: Seq<Seq<char>>,
    consts: Seq<Seq<char>>,
    name: Seq<char>,
    r: Res,
) -> bool {
    match r {
        Res::Local(d) => scopes_lookup(scopes, name) == Some(d),
        Res::Fn(f) => scopes_lookup(scopes, name) is None && f.0 < fns.len() && fns[f.0 as int] == name,
        Res::Const(c) => scopes_lookup(scopes, name) is None && !fns.contains(name) && c.0 < consts.len()
            && consts[c.0 as int] == name,
        Res::Builtin(b) => scopes_lookup(scopes, name) is None && !fns.contains(name) && !consts.contains(
            name,
        ) && builtin_name(b) == name,
    }
}

/// Whether `name` refers to anything at all.
pub open spec fn resolvable(
    scopes: Seq<Seq<(Seq<char>, NodeId)>>,
    fns: Seq<Seq<char>>,
    consts: Seq<Seq<char>>,
    name: Seq<char>,
) -> bool {
    scopes_lookup(scopes, name) is Some || fns.contains(name) || consts.contains(name) || exists|b: Builtin|
        builtin_name(b) == name
}

/// Whether `x` is a name in scope: a local of any enclosing scope, a
/// function, a constant or a builtin.
pub open spec fn in_scope_name(
    scopes: Seq<Seq<(Seq<char>, NodeId)>>,
    fns: Seq<Seq<char>>,
    consts: Seq<Seq<char>>,
    x: Seq<char>,
) -> bool {
    (exists|i: int, j: int| 0 <= i < scopes.len() && 0 <= j < scopes[i].len() && #[trigger] scopes[i][j].0 == x)
        || fns.contains(x) || consts.contains(x) || exists|b: Builtin| builtin_name(b) == x
}

proof fn lemma_declared_below(items: Seq<Item>, n: nat, tag: u8)
    requires
        n <= items.len(),
    ensures
        forall|i: int| 0 <= i < declared(items, n, tag).len() ==> (#[trigger] declared(items, n, tag)[i]) < n,
        declared(items, n, tag).len() <= n,
    decreases n,
{
    if n > 0 {
        lemma_declared_below(items, (n - 1) as nat, tag);
    }
}

/// Every position in a table holds an item of the table's kind.
pub proof fn lemma_declared_kind(items: Seq<Item>, n: nat, tag: u8)
    requires
        n <= items.len(),
        items.len() <= usize::MAX,
    ensures
        forall|i: int| 0 <= i < declared(items, n, tag).len() ==> {
            &&& (#[trigger] declared(items, n, tag)[i]) < n
            &&& item_tag(items[declared(items, n, tag)[i] as int]) == tag
        },
    decreases n,
{
    if n > 0 {
        lemma_declared_kind(items, (n - 1) as nat, tag);
        let prev = declared(items, (n - 1) as nat, tag);
        if item_tag(items[n - 1]) == tag && first_declaration(items, n - 1) {
            assert(declared(items, n, tag) == prev.push((n - 1) as usize));
            assert forall|i: int| 0 <= i < declared(items, n, tag).len() implies {
                &&& (#[trigger] declared(items, n, tag)[i]) < n
                &&& item_tag(items[declared(items, n, tag)[i] as int]) == tag
            } by {
                if i < prev.len() {
                    assert(declared(items, n, tag)[i] == prev[i]);
                }
            }
        } else {
            assert(declared(items, n, tag) == prev);
        }
    }
}

/// A table lists, in declaration order, exactly the items of its kind that
/// are the first to declare their name: a later item that reuses a name
/// never enters any table.
pub proof fn lemma_table_is_first_declarations(items: Seq<Item>, n: nat, tag: u8)
    requires
        n <= items.len(),
        items.len() <= usize::MAX,
    ensures
        forall|i: int| 0 <= i < declared(items, n, tag).len() ==> {
            let k = #[trigger] declared(items, n, tag)[i];
            &&& k < n
            &&& item_tag(items[k as int]) == tag
            &&& first_declaration(items, k as int)
        },
        forall|i: int, j: int|
            0 <= i < j < declared(items, n, tag).len() ==> #[trigger] declared(items, n, tag)[i] < #[trigger] declared(
                items,
                n,
                tag,
            )[j],
        forall|k: int|
            0 <= k < n && item_tag(items[k]) == tag && first_declaration(items, k) ==> #[trigger] declared(
                items,
                n,
                tag,
            ).contains(k as usize),
    decreases n,
{
    if n > 0 {
        lemma_table_is_first_declarations(items, (n - 1) as nat, tag);
        lemma_declared_below(items, (n - 1) as nat, tag);
        let prev = declared(items, (n - 1) as nat, tag);
        let cur = declared(items, n, tag);
        if item_tag(items[n - 1]) == tag && first_declaration(items, n - 1) {
            assert(cur == prev.push((n - 1) as usize));
            assert forall|i: int| 0 <= i < cur.len() implies {
                let k = #[trigger] cur[i];
                &&& k < n
                &&& item_tag(items[k as int]) == tag
                &&& first_declaration(items, k as int)
            } by {
                if i < prev.len() {
                    assert(cur[i] == prev[i]);
                }
            }
            assert forall|i: int, j: int| 0 <= i < j < cur.len() implies #[trigger] cur[i] < #[trigger] cur[j] by {
                assert(cur[i] == prev[i]);
                if j < prev.len() {
                    assert(cur[j] == prev[j]);
                    assert(prev[i] < prev[j]);
                } else {
                    assert(prev[i] < n - 1);
                }
            }
            assert forall|k: int|
                0 <= k < n && item_tag(items[k]) == tag && first_declaration(items, k) implies #[trigger] cur.contains(
                k as usize,
            ) by {
                if k < n - 1 {
                    assert(prev.contains(k as usize));
                    let i = choose|i: int| 0 <= i < prev.len() && prev[i] == k as usize;
                    assert(cur[i] == prev[i]);
                } else {
                    assert(cur[prev.len() as int] == (n - 1) as usize);
                }
            }
        } else {
            assert(cur == prev);
            assert forall|k: int|
                0 <= k < n && item_tag(items[k]) == tag && first_declaration(items, k) implies #[trigger] cur.contains(
                k as usize,
            ) by {
                if k < n - 1 {
                    assert(prev.contains(k as usize));
                }
            }
        }
    }
}

/// The function table of a resolution: a name is in it exactly when the
/// first item declaring that name is a function; each entry, in
/// declaration order, is the position of that first declaration.
pub proof fn lemma_function_table(res: &Resolution, items: Seq<Item>, x: Seq<char>)
    requires
        tables_match(res, items),
        items.len() <= usize::MAX,
    ensures
        res.functions.names().contains(x) <==> exists|k: int|
            0 <= k < items.len() && #[trigger] item_name(items[k]) == x && item_tag(items[k]) == 0
                && first_declaration(items, k),
        forall|i: int| 0 <= i < res.functions.items().len() ==> {
            let k = #[trigger] res.functions.items()[i];
            &&& k < items.len()
            &&& item_tag(items[k as int]) == 0
            &&& first_declaration(items, k as int)
            &&& item_name(items[k as int]) == res.functions.names()[i]
        },
        forall|i: int, j: int|
            0 <= i < j < res.functions.items().len() ==> #[trigger] res.functions.items()[i]
                < #[trigger] res.functions.items()[j],
{
    let n = items.len();
    lemma_table_is_first_declarations(items, n, 0);
    let pos = declared(items, n, 0);
    if res.functions.names().contains(x) {
        let i = choose|i: int| 0 <= i < res.functions.names().len() && res.functions.names()[i] == x;
        let k = pos[i] as int;
        assert(item_name(items[k]) == x && item_tag(items[k]) == 0 && first_declaration(items, k));
    }
    if exists|k: int|
        0 <= k < items.len() && #[trigger] item_name(items[k]) == x && item_tag(items[k]) == 0 && first_declaration(
            items,
            k,
        ) {
        let k = choose|k: int|
            0 <= k < items.len() && #[trigger] item_name(items[k]) == x && item_tag(items[k]) == 0 && first_declaration(
                items,
                k,
            );
        assert(pos.contains(k as usize));
        let i = choose|i: int| 0 <= i < pos.len() && pos[i] == k as usize;
        assert(res.functions.names()[i] == x);
    }
}

/// A name not declared among the first `n` items is in no table built from them.
proof fn lemma_fresh_name(items: Seq<Item>, n: nat, tag: u8, x: Seq<char>)
    requires
        n <= items.len(),
        forall|j: int| 0 <= j < n ==> item_name(items[j]) != x,
    ensures
        !names_at(items, declared(items, n, tag)).contains(x),
{
    lemma_declared_below(items, n, tag);
    let pos = declared(items, n, tag);
    if names_at(items, pos).contains(x) {
        let i = choose|i: int| 0 <= i < names_at(items, pos).len() && names_at(items, pos)[i] == x;
        assert(pos[i] < n);
        assert(item_name(items[pos[i] as int]) == x);
    }
}

// ---- the resolver ----

/// Resolves all names in `ast`, reporting unresolved and duplicate names to
/// `diags`. The global tables are exactly the first declarations of each
/// name, by kind, in declaration order. Every parameter, `let` and loop
/// variable is recorded with its name and mutability; the errors are the
/// redeclared items, then, item by item, each repeated parameter and each
/// name use with nothing in scope to refer to.
pub fn resolve(ast: &Ast, diags: &mut Diagnostics) -> (res: Resolution)
    requires
        old(diags).wf(),
        ast.items@.len() <= u32::MAX,
    ensures
        final(diags).wf(),
        extends(old(diags).spec_items(), final(diags).spec_items()),
        res.wf(),
        tables_match(&res, ast.items@),
        final(diags).spec_items().len() >= old(diags).spec_items().len() + redeclarations(ast.items@, ast.items@.len()),
        forall|k: int|
            old(diags).spec_items().len() <= k < old(diags).spec_items().len() + redeclarations(
                ast.items@,
                ast.items@.len(),
            ) ==> (#[trigger] final(diags).spec_items()[k]).code == DiagCode::DuplicateDefinition,
        final(diags).spec_items().len() == old(diags).spec_items().len() + redeclarations(ast.items@, ast.items@.len())
            ==> names_all_done(ast.items@, res.uses@),
        locals_view(res.locals@) == bind_items(ast.items@, ast.items@.len()),
        diag_codes(final(diags).spec_items()) == diag_codes(old(diags).spec_items()) + repeat_code(
            DiagCode::DuplicateDefinition,
            redeclarations(ast.items@, ast.items@.len()),
        ) + body_codes(ast.items@, ast.items@.len(), res.functions.names(), res.consts.names()),
{
    let mut resolver = Resolver {
        res: Resolution {
            uses: NodeMap::new(),
            locals: NodeMap::new(),
            functions: FunctionTable { table: NameTable::new() },
            consts: ConstTable { table: NameTable::new() },
            structs: StructTable { table: NameTable::new() },
        },
        scopes: Vec::new(),
        diags: Diagnostics::new(),
    };
    std::mem::swap(&mut resolver.diags, diags);
    let ghost start = resolver.diags.spec_items();
    assert(resolver.scopes@ =~= Seq::<Vec<(String, NodeId)>>::empty());
    resolver.collect_globals(ast);
    let ghost globals = resolver;
    proof {
        assert(locals_view(resolver.res.locals@) =~= bind_items(ast.items@, 0));
        assert(resolver.sv() =~= Seq::<Seq<(Seq<char>, NodeId)>>::empty());
        assert(diag_codes(resolver.diags.spec_items()) + seq![] =~= diag_codes(resolver.diags.spec_items()));
    }
    let mut i: usize = 0;
    while i < ast.items.len()
        invariant
            resolver.inv(),
            tables_match(&resolver.res, ast.items@),
            extends(start, resolver.diags.spec_items()),
            extends(globals.diags.spec_items(), resolver.diags.spec_items()),
            0 <= i <= ast.items@.len(),
            globals.diags.spec_items().len() == start.len() + redeclarations(ast.items@, ast.items@.len()),
            forall|k: int|
                start.len() <= k < globals.diags.spec_items().len() ==> (#[trigger] globals.diags.spec_items()[k]).code
                    == DiagCode::DuplicateDefinition,
            resolver.diags.spec_items().len() == globals.diags.spec_items().len() ==> names_done_items(
                ast.items@,
                i as nat,
                resolver.res.uses@,
            ),
            locals_view(resolver.res.locals@) == bind_items(ast.items@, i as nat),
            resolver.sv() == Seq::<Seq<(Seq<char>, NodeId)>>::empty(),
            resolver.res.functions == globals.res.functions,
            resolver.res.consts == globals.res.consts,
            diag_codes(resolver.diags.spec_items()) == diag_codes(globals.diags.spec_items()) + body_codes(
                ast.items@,
                i as nat,
                globals.res.functions.names(),
                globals.res.consts.names(),
            ),
        decreases ast.items@.len() - i,
    {
        let ghost before = resolver;
        let ghost fns = globals.res.functions.names();
        let ghost consts = globals.res.consts.names();
        match &ast.items[i].kind {
            ItemKind::Fn(decl) => {
                resolver.resolve_fn(decl);
                proof {
                    let r = repeated_params(decl.params@, decl.params@.len());
                    let ps = param_scope(decl.params@, decl.params@.len());
                    assert(Seq::<Seq<(Seq<char>, NodeId)>>::empty().push(ps) =~= seq![ps]);
                    let m = miss_b(decl.body, seq![ps], fns, consts);
                    let n0 = before.diags.spec_items().len();
                    assert(diag_codes(resolver.diags.spec_items()) =~= diag_codes(before.diags.spec_items()) + (
                    repeat_code(DiagCode::DuplicateParameter, r) + repeat_code(DiagCode::UnresolvedName, m)));
                    assert(body_codes(ast.items@, (i + 1) as nat, fns, consts) == body_codes(ast.items@, i as nat, fns, consts)
                        + (repeat_code(DiagCode::DuplicateParameter, r) + repeat_code(DiagCode::UnresolvedName, m)));
                    assert(diag_codes(resolver.diags.spec_items()) =~= diag_codes(globals.diags.spec_items())
                        + body_codes(ast.items@, (i + 1) as nat, fns, consts));
                }
            },
            ItemKind::Const(decl) => {
                resolver.resolve_const(decl);
                proof {
                    let m = miss_e(decl.value, seq![], fns, consts);
                    assert(diag_codes(resolver.diags.spec_items()) =~= diag_codes(before.diags.spec_items())
                        + repeat_code(DiagCode::UnresolvedName, m));
                    assert(diag_codes(resolver.diags.spec_items()) =~= diag_codes(globals.diags.spec_items())
                        + body_codes(ast.items@, (i + 1) as nat, fns, consts));
                }
            },
            // Struct field types are resolved during type checking; nothing in
            // a struct declaration refers to a value name.
            ItemKind::Struct(_) => {
                proof {
                    assert(diag_codes(resolver.diags.spec_items()) =~= diag_codes(globals.diags.spec_items())
                        + body_codes(ast.items@, (i + 1) as nat, fns, consts));
                }
            },
        }
        proof {
            lemma_extends_trans(start, before.diags.spec_items(), resolver.diags.spec_items());
            lemma_extends_trans(globals.diags.spec_items(), before.diags.spec_items(), resolver.diags.spec_items());
            if resolver.diags.spec_items().len() == globals.diags.spec_items().len() {
                lemma_done_items(ast.items@, i as nat, before.res.uses@, resolver.res.uses@);
            }
        }
        i = i + 1;
    }
    proof {
        let g = globals.diags.spec_items();
        assert(diag_codes(g) =~= diag_codes(start) + repeat_code(
            DiagCode::DuplicateDefinition,
            redeclarations(ast.items@, ast.items@.len()),
        ));
    }
    std::mem::swap(&mut resolver.diags, diags);
    resolver.res
}

proof fn lemma_extends_trans<T>(a: Seq<T>, b: Seq<T>, c: Seq<T>)
    requires
        extends(a, b),
        extends(b, c),
    ensures
        extends(a, c),
{
    assert forall|i: int| 0 <= i < a.len() implies #[trigger] c[i] == a[i] by {
        assert(c[i] == b[i]);
    }
}

// ---- bindings recorded ----

/// What is recorded of a binding: its name, whether it is mutable, and the
/// span of its name.
pub open spec fn local_view(l: LocalInfo) -> (Seq<char>, bool, Span) {
    (l.name@, l.mutable, l.span)
}

/// The recorded bindings, by definition node.
pub open spec fn locals_view(m: Map<NodeId, LocalInfo>) -> Map<NodeId, (Seq<char>, bool, Span)> {
    Map::new(|k: NodeId| m.contains_key(k), |k: NodeId| local_view(m[k]))
}

/// The bindings `m` after walking an expression: every `let`, loop variable
/// and parameter met on the way is recorded, in program order.
pub open spec fn bind_e(e: Expr, m: Map<NodeId, (Seq<char>, bool, Span)>) -> Map<NodeId, (Seq<char>, bool, Span)>
    decreases e, 0int,
{
    match e.kind {
        ExprKind::Unary { rhs, .. } => bind_e(*rhs, m),
        ExprKind::Binary { lhs, rhs, .. } => bind_e(*rhs, bind_e(*lhs, m)),
        ExprKind::Call { callee, args } => bind_es(args@, args@.len(), bind_e(*callee, m)),
        ExprKind::Assign { target, value } => bind_e(*value, bind_e(*target, m)),
        ExprKind::AssignOp { target, value, .. } => bind_e(*value, bind_e(*target, m)),
        ExprKind::ArrayLit(es) => bind_es(es@, es@.len(), m),
        ExprKind::Index { base, index } => bind_e(*index, bind_e(*base, m)),
        ExprKind::StructLit { fields, .. } => bind_fs(fields@, fields@.len(), m),
        ExprKind::Field { base, .. } => bind_e(*base, m),
        ExprKind::TupleLit(es) => bind_es(es@, es@.len(), m),
        ExprKind::TupleIndex { base, .. } => bind_e(*base, m),
        ExprKind::If(i) => {
            let m2 = bind_b(i.then_branch, bind_e(*i.cond, m));
            match i.else_branch {
                Some(e) => bind_e(*e, m2),
                None => m2,
            }
        },
        ExprKind::Match(mt) => bind_as(mt.arms@, mt.arms@.len(), bind_e(*mt.scrutinee, m)),
        ExprKind::Block(b) => bind_b(b, m),
        _ => m,
    }
}

/// [`bind_e`] over the first `n` expressions, in order.
pub open spec fn bind_es(es: Seq<Expr>, n: nat, m: Map<NodeId, (Seq<char>, bool, Span)>) -> Map<NodeId, (Seq<char>, bool, Span)>
    decreases es, n,
{
    if n == 0 || n > es.len() {
        m
    } else {
        bind_e(es[n - 1], bind_es(es, (n - 1) as nat, m))
    }
}

/// [`bind_e`] over the values of the first `n` field initialisers.
pub open spec fn bind_fs(
    fs: Seq<crate::parser::ast::FieldInit>,
    n: nat,
    m: Map<NodeId, (Seq<char>, bool, Span)>,
) -> Map<NodeId, (Seq<char>, bool, Span)>
    decreases fs, n,
{
    if n == 0 || n > fs.len() {
        m
    } else {
        bind_e(fs[n - 1].value, bind_fs(fs, (n - 1) as nat, m))
    }
}

/// [`bind_e`] over the bodies of the first `n` match arms.
pub open spec fn bind_as(
    arms: Seq<crate::parser::ast::MatchArm>,
    n: nat,
    m: Map<NodeId, (Seq<char>, bool, Span)>,
) -> Map<NodeId, (Seq<char>, bool, Span)>
    decreases arms, n,
{
    if n == 0 || n > arms.len() {
        m
    } else {
        bind_e(arms[n - 1].body, bind_as(arms, (n - 1) as nat, m))
    }
}

/// [`bind_e`] over a block: its statements, then its tail.
pub open spec fn bind_b(b: Block, m: Map<NodeId, (Seq<char>, bool, Span)>) -> Map<NodeId, (Seq<char>, bool, Span)>
    decreases b, 0int,
{
    let m1 = bind_ss(b.stmts@, b.stmts@.len(), m);
    match b.tail {
        Some(t) => bind_e(*t, m1),
        None => m1,
    }
}

/// [`bind_s`] over the first `n` statements, in order.
pub open spec fn bind_ss(ss: Seq<Stmt>, n: nat, m: Map<NodeId, (Seq<char>, bool, Span)>) -> Map<NodeId, (Seq<char>, bool, Span)>
    decreases ss, n,
{
    if n == 0 || n > ss.len() {
        m
    } else {
        bind_s(ss[n - 1], bind_ss(ss, (n - 1) as nat, m))
    }
}

/// [`bind_e`] over a statement. A `let` records its binding after its
/// initialiser; a loop records its variable before its body. Loop variables
/// and parameters are immutable.
pub open spec fn bind_s(s: Stmt, m: Map<NodeId, (Seq<char>, bool, Span)>) -> Map<NodeId, (Seq<char>, bool, Span)>
    decreases s, 0int,
{
    match s.kind {
        StmtKind::Let(l) => bind_e(l.init, m).insert(l.id, (l.name.name@, l.mutable, l.name.span)),
        StmtKind::Expr(e) => bind_e(e, m),
        StmtKind::Return(Some(e)) => bind_e(e, m),
        StmtKind::While(w) => bind_b(w.body, bind_e(w.cond, m)),
        StmtKind::For(f) => bind_b(
            f.body,
            bind_e(f.end, bind_e(f.start, m)).insert(f.id, (f.var.name@, false, f.var.span)),
        ),
        StmtKind::ForEach(f) => bind_b(f.body, bind_e(f.iterable, m).insert(f.id, (f.var.name@, false, f.var.span))),
        _ => m,
    }
}

/// The first `n` parameters recorded, in order.
pub open spec fn bind_params(ps: Seq<Param>, n: nat, m: Map<NodeId, (Seq<char>, bool, Span)>) -> Map<NodeId, (Seq<char>, bool, Span)>
    decreases n,
{
    if n == 0 || n > ps.len() {
        m
    } else {
        bind_params(ps, (n - 1) as nat, m).insert(ps[n - 1].id, (ps[n - 1].name.name@, false, ps[n - 1].name.span))
    }
}

/// The bindings of the first `n` items: a function's parameters, then its
/// body; a constant's value.
pub open spec fn bind_items(items: Seq<Item>, n: nat) -> Map<NodeId, (Seq<char>, bool, Span)>
    decreases n,
{
    if n == 0 || n > items.len() {
        Map::empty()
    } else {
        let m = bind_items(items, (n - 1) as nat);
        match items[n - 1].kind {
            ItemKind::Fn(f) => bind_b(f.body, bind_params(f.params@, f.params@.len(), m)),
            ItemKind::Const(c) => bind_e(c.value, m),
            ItemKind::Struct(_) => m,
        }
    }
}

// ---- unresolved names counted ----

/// The scopes after the first `n` statements of a block, starting from
/// `sv`: each `let` adds its binding to the innermost scope.
pub open spec fn scopes_after(ss: Seq<Stmt>, n: nat, sv: Seq<Seq<(Seq<char>, NodeId)>>) -> Seq<
    Seq<(Seq<char>, NodeId)>,
>
    decreases n,
{
    if n == 0 || n > ss.len() {
        sv
    } else {
        let p = scopes_after(ss, (n - 1) as nat, sv);
        match ss[n - 1].kind {
            StmtKind::Let(l) => p.drop_last().push(p.last().push((l.name.name@, l.id))),
            _ => p,
        }
    }
}

/// How many name uses in an expression find nothing to refer to, with
/// scopes `sv` and the global function and constant names.
pub open spec fn miss_e(
    e: Expr,
    sv: Seq<Seq<(Seq<char>, NodeId)>>,
    fns: Seq<Seq<char>>,
    consts: Seq<Seq<char>>,
) -> nat
    decreases e, 0int,
{
    match e.kind {
        ExprKind::Name(n) => if resolvable(sv, fns, consts, n@) {
            0
        } else {
            1
        },
        ExprKind::Unary { rhs, .. } => miss_e(*rhs, sv, fns, consts),
        ExprKind::Binary { lhs, rhs, .. } => miss_e(*lhs, sv, fns, consts) + miss_e(*rhs, sv, fns, consts),
        ExprKind::Call { callee, args } => miss_e(*callee, sv, fns, consts) + miss_es(args@, args@.len(), sv, fns, consts),
        ExprKind::Assign { target, value } => miss_e(*target, sv, fns, consts) + miss_e(*value, sv, fns, consts),
        ExprKind::AssignOp { target, value, .. } => miss_e(*target, sv, fns, consts) + miss_e(*value, sv, fns, consts),
        ExprKind::ArrayLit(es) => miss_es(es@, es@.len(), sv, fns, consts),
        ExprKind::Index { base, index } => miss_e(*base, sv, fns, consts) + miss_e(*index, sv, fns, consts),
        ExprKind::StructLit { fields, .. } => miss_fs(fields@, fields@.len(), sv, fns, consts),
        ExprKind::Field { base, .. } => miss_e(*base, sv, fns, consts),
        ExprKind::TupleLit(es) => miss_es(es@, es@.len(), sv, fns, consts),
        ExprKind::TupleIndex { base, .. } => miss_e(*base, sv, fns, consts),
        ExprKind::If(i) => miss_e(*i.cond, sv, fns, consts) + miss_b(i.then_branch, sv, fns, consts) + match i.else_branch {
            Some(e) => miss_e(*e, sv, fns, consts),
            None => 0,
        },
        ExprKind::Match(mt) => miss_e(*mt.scrutinee, sv, fns, consts) + miss_as(mt.arms@, mt.arms@.len(), sv, fns, consts),
        ExprKind::Block(b) => miss_b(b, sv, fns, consts),
        _ => 0,
    }
}

/// [`miss_e`] over the first `n` expressions.
pub open spec fn miss_es(
    es: Seq<Expr>,
    n: nat,
    sv: Seq<Seq<(Seq<char>, NodeId)>>,
    fns: Seq<Seq<char>>,
    consts: Seq<Seq<char>>,
) -> nat
    decreases es, n,
{
    if n == 0 || n > es.len() {
        0
    } else {
        miss_es(es, (n - 1) as nat, sv, fns, consts) + miss_e(es[n - 1], sv, fns, consts)
    }
}

/// [`miss_e`] over the values of the first `n` field initialisers.
pub open spec fn miss_fs(
    fs: Seq<crate::parser::ast::FieldInit>,
    n: nat,
    sv: Seq<Seq<(Seq<char>, NodeId)>>,
    fns: Seq<Seq<char>>,
    consts: Seq<Seq<char>>,
) -> nat
    decreases fs, n,
{
    if n == 0 || n > fs.len() {
        0
    } else {
        miss_fs(fs, (n - 1) as nat, sv, fns, consts) + miss_e(fs[n - 1].value, sv, fns, consts)
    }
}

/// [`miss_e`] over the bodies of the first `n` match arms.
pub open spec fn miss_as(
    arms: Seq<crate::parser::ast::MatchArm>,
    n: nat,
    sv: Seq<Seq<(Seq<char>, NodeId)>>,
    fns: Seq<Seq<char>>,
    consts: Seq<Seq<char>>,
) -> nat
    decreases arms, n,
{
    if n == 0 || n > arms.len() {
        0
    } else {
        miss_as(arms, (n - 1) as nat, sv, fns, consts) + miss_e(arms[n - 1].body, sv, fns, consts)
    }
}

/// [`miss_e`] over a block, which opens a scope of its own.
pub open spec fn miss_b(
    b: Block,
    sv: Seq<Seq<(Seq<char>, NodeId)>>,
    fns: Seq<Seq<char>>,
    consts: Seq<Seq<char>>,
) -> nat
    decreases b, 0int,
{
    let inner = sv.push(Seq::empty());
    miss_ss(b.stmts@, b.stmts@.len(), inner, fns, consts) + match b.tail {
        Some(t) => miss_e(*t, scopes_after(b.stmts@, b.stmts@.len(), inner), fns, consts),
        None => 0,
    }
}

/// [`miss_s`] over the first `n` statements, each in the scopes the ones
/// before it leave.
pub open spec fn miss_ss(
    ss: Seq<Stmt>,
    n: nat,
    sv: Seq<Seq<(Seq<char>, NodeId)>>,
    fns: Seq<Seq<char>>,
    consts: Seq<Seq<char>>,
) -> nat
    decreases ss, n,
{
    if n == 0 || n > ss.len() {
        0
    } else {
        miss_ss(ss, (n - 1) as nat, sv, fns, consts) + miss_s(
            ss[n - 1],
            scopes_after(ss, (n - 1) as nat, sv),
            fns,
            consts,
        )
    }
}

/// [`miss_e`] over a statement. A `let` initialiser does not see its own
/// binding; a loop variable is in scope in the body only.
pub open spec fn miss_s(
    s: Stmt,
    sv: Seq<Seq<(Seq<char>, NodeId)>>,
    fns: Seq<Seq<char>>,
    consts: Seq<Seq<char>>,
) -> nat
    decreases s, 0int,
{
    match s.kind {
        StmtKind::Let(l) => miss_e(l.init, sv, fns, consts),
        StmtKind::Expr(e) => miss_e(e, sv, fns, consts),
        StmtKind::Return(Some(e)) => miss_e(e, sv, fns, consts),
        StmtKind::While(w) => miss_e(w.cond, sv, fns, consts) + miss_b(w.body, sv, fns, consts),
        StmtKind::For(f) => miss_e(f.start, sv, fns, consts) + miss_e(f.end, sv, fns, consts) + miss_b(
            f.body,
            sv.push(seq![(f.var.name@, f.id)]),
            fns,
            consts,
        ),
        StmtKind::ForEach(f) => miss_e(f.iterable, sv, fns, consts) + miss_b(
            f.body,
            sv.push(seq![(f.var.name@, f.id)]),
            fns,
            consts,
        ),
        _ => 0,
    }
}

/// The scope of a function's parameters, in order.
pub open spec fn param_scope(ps: Seq<Param>, n: nat) -> Seq<(Seq<char>, NodeId)>
    decreases n,
{
    if n == 0 || n > ps.len() {
        Seq::empty()
    } else {
        param_scope(ps, (n - 1) as nat).push((ps[n - 1].name.name@, ps[n - 1].id))
    }
}

/// Whether one of the first `n` parameters is named `x`.
pub open spec fn seen_by(x: Seq<char>, ps: Seq<Param>, n: int) -> bool {
    exists|j: int| 0 <= j < n && (#[trigger] ps[j]).name.name@ == x
}

/// Whether `x` is one of the strings `v`.
pub open spec fn listed_in(x: Seq<char>, v: Seq<&str>) -> bool {
    exists|q: int| 0 <= q < v.len() && (#[trigger] v[q])@ == x
}

/// How many of the first `n` parameters repeat an earlier parameter's name.
pub open spec fn repeated_params(ps: Seq<Param>, n: nat) -> nat
    decreases n,
{
    if n == 0 || n > ps.len() {
        0
    } else {
        repeated_params(ps, (n - 1) as nat) + if exists|j: int|
            0 <= j < n - 1 && #[trigger] ps[j].name.name@ == ps[n - 1].name.name@ {
            1nat
        } else {
            0nat
        }
    }
}

/// `n` copies of `c`.
pub open spec fn repeat_code(c: DiagCode, n: nat) -> Seq<DiagCode> {
    Seq::new(n, |_i: int| c)
}

/// The codes of the errors found in the bodies of the first `n` items, in
/// order: for a function, its repeated parameters, then its unresolved
/// names; for a constant, its unresolved names.
pub open spec fn body_codes(items: Seq<Item>, n: nat, fns: Seq<Seq<char>>, consts: Seq<Seq<char>>) -> Seq<DiagCode>
    decreases n,
{
    if n == 0 || n > items.len() {
        seq![]
    } else {
        body_codes(items, (n - 1) as nat, fns, consts) + match items[n - 1].kind {
            ItemKind::Fn(f) => repeat_code(DiagCode::DuplicateParameter, repeated_params(f.params@, f.params@.len()))
                + repeat_code(
                DiagCode::UnresolvedName,
                miss_b(f.body, seq![param_scope(f.params@, f.params@.len())], fns, consts),
            ),
            ItemKind::Const(c) => repeat_code(DiagCode::UnresolvedName, miss_e(c.value, seq![], fns, consts)),
            ItemKind::Struct(_) => seq![],
        }
    }
}

/// The errors found in the bodies of the first `n` items: unresolved name
/// uses and repeated parameters. Constant values see no locals.
pub open spec fn body_errors(items: Seq<Item>, n: nat, fns: Seq<Seq<char>>, consts: Seq<Seq<char>>) -> nat
    decreases n,
{
    if n == 0 || n > items.len() {
        0
    } else {
        body_errors(items, (n - 1) as nat, fns, consts) + match items[n - 1].kind {
            ItemKind::Fn(f) => repeated_params(f.params@, f.params@.len()) + miss_b(
                f.body,
                seq![param_scope(f.params@, f.params@.len())],
                fns,
                consts,
            ),
            ItemKind::Const(c) => miss_e(c.value, seq![], fns, consts),
            ItemKind::Struct(_) => 0,
        }
    }
}

// ---- names resolved ----

/// Whether every name used in an expression has a resolution in `m`.
pub open spec fn names_done_e(e: Expr, m: Map<NodeId, Res>) -> bool
    decreases e, 1int,
{
    match e.kind {
        ExprKind::Name(_) => m.contains_key(e.id),
        _ => names_done_k(e.kind, m),
    }
}

/// [`names_done_e`] of an expression node other than a name.
pub open spec fn names_done_k(k: ExprKind, m: Map<NodeId, Res>) -> bool
    decreases k, 0int,
{
    match k {
        ExprKind::Unary { rhs, .. } => names_done_e(*rhs, m),
        ExprKind::Binary { lhs, rhs, .. } => names_done_e(*lhs, m) && names_done_e(*rhs, m),
        ExprKind::Call { callee, args } => names_done_e(*callee, m) && names_done_es(args@, args@.len(), m),
        ExprKind::Assign { target, value } => names_done_e(*target, m) && names_done_e(*value, m),
        ExprKind::AssignOp { target, value, .. } => names_done_e(*target, m) && names_done_e(*value, m),
        ExprKind::ArrayLit(es) => names_done_es(es@, es@.len(), m),
        ExprKind::Index { base, index } => names_done_e(*base, m) && names_done_e(*index, m),
        ExprKind::StructLit { fields, .. } => names_done_fs(fields@, fields@.len(), m),
        ExprKind::Field { base, .. } => names_done_e(*base, m),
        ExprKind::TupleLit(es) => names_done_es(es@, es@.len(), m),
        ExprKind::TupleIndex { base, .. } => names_done_e(*base, m),
        ExprKind::If(i) => names_done_e(*i.cond, m) && names_done_b(i.then_branch, m) && match i.else_branch {
            Some(e) => names_done_e(*e, m),
            None => true,
        },
        ExprKind::Match(mt) => names_done_e(*mt.scrutinee, m) && names_done_as(mt.arms@, mt.arms@.len(), m),
        ExprKind::Block(b) => names_done_b(b, m),
        _ => true,
    }
}

/// [`names_done_e`] of the first `n` expressions.
pub open spec fn names_done_es(es: Seq<Expr>, n: nat, m: Map<NodeId, Res>) -> bool
    decreases es, n,
{
    if n == 0 || n > es.len() {
        true
    } else {
        names_done_es(es, (n - 1) as nat, m) && names_done_e(es[n - 1], m)
    }
}

/// [`names_done_e`] of the values of the first `n` field initialisers.
pub open spec fn names_done_fs(fs: Seq<crate::parser::ast::FieldInit>, n: nat, m: Map<NodeId, Res>) -> bool
    decreases fs, n,
{
    if n == 0 || n > fs.len() {
        true
    } else {
        names_done_fs(fs, (n - 1) as nat, m) && names_done_e(fs[n - 1].value, m)
    }
}

/// [`names_done_e`] of the bodies of the first `n` match arms.
pub open spec fn names_done_as(arms: Seq<crate::parser::ast::MatchArm>, n: nat, m: Map<NodeId, Res>) -> bool
    decreases arms, n,
{
    if n == 0 || n > arms.len() {
        true
    } else {
        names_done_as(arms, (n - 1) as nat, m) && names_done_e(arms[n - 1].body, m)
    }
}

/// Whether every name used in a block has a resolution in `m`.
pub open spec fn names_done_b(b: Block, m: Map<NodeId, Res>) -> bool
    decreases b, 1int,
{
    names_done_ss(b.stmts@, b.stmts@.len(), m) && match b.tail {
        Some(t) => names_done_e(*t, m),
        None => true,
    }
}

/// [`names_done_s`] of the first `n` statements.
pub open spec fn names_done_ss(ss: Seq<Stmt>, n: nat, m: Map<NodeId, Res>) -> bool
    decreases ss, n,
{
    if n == 0 || n > ss.len() {
        true
    } else {
        names_done_ss(ss, (n - 1) as nat, m) && names_done_s(ss[n - 1], m)
    }
}

/// Whether every name used in a statement has a resolution in `m`.
pub open spec fn names_done_s(s: Stmt, m: Map<NodeId, Res>) -> bool
    decreases s, 0int,
{
    match s.kind {
        StmtKind::Let(l) => names_done_e(l.init, m),
        StmtKind::Expr(e) => names_done_e(e, m),
        StmtKind::Return(Some(e)) => names_done_e(e, m),
        StmtKind::While(w) => names_done_e(w.cond, m) && names_done_b(w.body, m),
        StmtKind::For(f) => names_done_e(f.start, m) && names_done_e(f.end, m) && names_done_b(f.body, m),
        StmtKind::ForEach(f) => names_done_e(f.iterable, m) && names_done_b(f.body, m),
        _ => true,
    }
}

/// Whether every name used in the first `n` items (function bodies and
/// constant values) has a resolution in `m`.
pub open spec fn names_done_items(items: Seq<Item>, n: nat, m: Map<NodeId, Res>) -> bool
    decreases n,
{
    if n == 0 || n > items.len() {
        true
    } else {
        names_done_items(items, (n - 1) as nat, m) && match items[n - 1].kind {
            ItemKind::Fn(f) => names_done_b(f.body, m),
            ItemKind::Const(c) => names_done_e(c.value, m),
            ItemKind::Struct(_) => true,
        }
    }
}

/// How a name use is resolved in scopes `sv`: bound as [`resolves_to`] says
/// where the name is visible, and otherwise reported as `UnresolvedName`
/// with the uses left as they were.
pub open spec fn name_use_resolved(
    sv: Seq<Seq<(Seq<char>, NodeId)>>,
    fns: Seq<Seq<char>>,
    consts: Seq<Seq<char>>,
    name: Seq<char>,
    id: NodeId,
    uses0: Map<NodeId, Res>,
    uses1: Map<NodeId, Res>,
    diags0: Seq<Diagnostic>,
    diags1: Seq<Diagnostic>,
) -> bool {
    if resolvable(sv, fns, consts, name) {
        &&& uses1.contains_key(id)
        &&& resolves_to(sv, fns, consts, name, uses1[id])
        &&& diags1 == diags0
    } else {
        &&& uses1 == uses0
        &&& diags1.len() == diags0.len() + 1
        &&& diags1.last().code == DiagCode::UnresolvedName
    }
}

/// Whether every name used anywhere in a program has a resolution in `m`.
pub open spec fn names_all_done(items: Seq<Item>, m: Map<NodeId, Res>) -> bool {
    names_done_items(items, items.len(), m)
}

proof fn lemma_done_items(items: Seq<Item>, n: nat, a: Map<NodeId, Res>, b: Map<NodeId, Res>)
    requires
        names_done_items(items, n, a),
        keys_kept(a, b),
    ensures
        names_done_items(items, n, b),
    decreases n,
{
    if n > 0 && n <= items.len() {
        lemma_done_items(items, (n - 1) as nat, a, b);
        match items[n - 1].kind {
            ItemKind::Fn(f) => lemma_done_b(f.body, a, b),
            ItemKind::Const(c) => lemma_done_e(c.value, a, b),
            ItemKind::Struct(_) => {},
        }
    }
}

/// Every key of `a` is a key of `b`.
pub open spec fn keys_kept(a: Map<NodeId, Res>, b: Map<NodeId, Res>) -> bool {
    forall|k: NodeId| #[trigger] a.contains_key(k) ==> b.contains_key(k)
}

proof fn lemma_done_e(e: Expr, a: Map<NodeId, Res>, b: Map<NodeId, Res>)
    requires
        names_done_e(e, a),
        keys_kept(a, b),
    ensures
        names_done_e(e, b),
    decreases e, 1int,
{
    match e.kind {
        ExprKind::Name(_) => {},
        _ => lemma_done_k(e.kind, a, b),
    }
}

proof fn lemma_done_k(k: ExprKind, a: Map<NodeId, Res>, b: Map<NodeId, Res>)
    requires
        names_done_k(k, a),
        keys_kept(a, b),
    ensures
        names_done_k(k, b),
    decreases k, 0int,
{
    match k {
        ExprKind::Unary { rhs, .. } => lemma_done_e(*rhs, a, b),
        ExprKind::Binary { lhs, rhs, .. } => {
            lemma_done_e(*lhs, a, b);
            lemma_done_e(*rhs, a, b);
        },
        ExprKind::Call { callee, args } => {
            lemma_done_e(*callee, a, b);
            lemma_done_es(args@, args@.len(), a, b);
        },
        ExprKind::Assign { target, value } => {
            lemma_done_e(*target, a, b);
            lemma_done_e(*value, a, b);
        },
        ExprKind::AssignOp { target, value, .. } => {
            lemma_done_e(*target, a, b);
            lemma_done_e(*value, a, b);
        },
        ExprKind::ArrayLit(es) => lemma_done_es(es@, es@.len(), a, b),
        ExprKind::Index { base, index } => {
            lemma_done_e(*base, a, b);
            lemma_done_e(*index, a, b);
        },
        ExprKind::StructLit { fields, .. } => lemma_done_fs(fields@, fields@.len(), a, b),
        ExprKind::Field { base, .. } => lemma_done_e(*base, a, b),
        ExprKind::TupleLit(es) => lemma_done_es(es@, es@.len(), a, b),
        ExprKind::TupleIndex { base, .. } => lemma_done_e(*base, a, b),
        ExprKind::If(i) => {
            lemma_done_e(*i.cond, a, b);
            lemma_done_b(i.then_branch, a, b);
            match i.else_branch {
                Some(e) => lemma_done_e(*e, a, b),
                None => {},
            }
        },
        ExprKind::Match(mt) => {
            lemma_done_e(*mt.scrutinee, a, b);
            lemma_done_as(mt.arms@, mt.arms@.len(), a, b);
        },
        ExprKind::Block(bl) => lemma_done_b(bl, a, b),
        _ => {},
    }
}

proof fn lemma_done_es(es: Seq<Expr>, n: nat, a: Map<NodeId, Res>, b: Map<NodeId, Res>)
    requires
        names_done_es(es, n, a),
        keys_kept(a, b),
    ensures
        names_done_es(es, n, b),
    decreases es, n,
{
    if n > 0 && n <= es.len() {
        lemma_done_es(es, (n - 1) as nat, a, b);
        lemma_done_e(es[n - 1], a, b);
    }
}

proof fn lemma_done_fs(fs: Seq<crate::parser::ast::FieldInit>, n: nat, a: Map<NodeId, Res>, b: Map<NodeId, Res>)
    requires
        names_done_fs(fs, n, a),
        keys_kept(a, b),
    ensures
        names_done_fs(fs, n, b),
    decreases fs, n,
{
    if n > 0 && n <= fs.len() {
        lemma_done_fs(fs, (n - 1) as nat, a, b);
        lemma_done_e(fs[n - 1].value, a, b);
    }
}

proof fn lemma_done_as(arms: Seq<crate::parser::ast::MatchArm>, n: nat, a: Map<NodeId, Res>, b: Map<NodeId, Res>)
    requires
        names_done_as(arms, n, a),
        keys_kept(a, b),
    ensures
        names_done_as(arms, n, b),
    decreases arms, n,
{
    if n > 0 && n <= arms.len() {
        lemma_done_as(arms, (n - 1) as nat, a, b);
        lemma_done_e(arms[n - 1].body, a, b);
    }
}

proof fn lemma_done_b(bl: Block, a: Map<NodeId, Res>, b: Map<NodeId, Res>)
    requires
        names_done_b(bl, a),
        keys_kept(a, b),
    ensures
        names_done_b(bl, b),
    decreases bl, 1int,
{
    lemma_done_ss(bl.stmts@, bl.stmts@.len(), a, b);
    match bl.tail {
        Some(t) => lemma_done_e(*t, a, b),
        None => {},
    }
}

proof fn lemma_done_ss(ss: Seq<Stmt>, n: nat, a: Map<NodeId, Res>, b: Map<NodeId, Res>)
    requires
        names_done_ss(ss, n, a),
        keys_kept(a, b),
    ensures
        names_done_ss(ss, n, b),
    decreases ss, n,
{
    if n > 0 && n <= ss.len() {
        lemma_done_ss(ss, (n - 1) as nat, a, b);
        lemma_done_s(ss[n - 1], a, b);
    }
}

proof fn lemma_done_s(st: Stmt, a: Map<NodeId, Res>, b: Map<NodeId, Res>)
    requires
        names_done_s(st, a),
        keys_kept(a, b),
    ensures
        names_done_s(st, b),
    decreases st, 0int,
{
    match st.kind {
        StmtKind::Let(l) => lemma_done_e(l.init, a, b),
        StmtKind::Expr(e) => lemma_done_e(e, a, b),
        StmtKind::Return(Some(e)) => lemma_done_e(e, a, b),
        StmtKind::While(w) => {
            lemma_done_e(w.cond, a, b);
            lemma_done_b(w.body, a, b);
        },
        StmtKind::For(f) => {
            lemma_done_e(f.start, a, b);
            lemma_done_e(f.end, a, b);
            lemma_done_b(f.body, a, b);
        },
        StmtKind::ForEach(f) => {
            lemma_done_e(f.iterable, a, b);
            lemma_done_b(f.body, a, b);
        },
        _ => {},
    }
}

struct Resolver {
    res: Resolution,
    /// The lexical scopes, innermost last; each holds `(name, definition)`
    /// bindings, the latest binding of a name winning.
    scopes: Vec<Vec<(String, NodeId)>>,
    diags: Diagnostics,
}

impl Resolver {
    spec fn inv(&self) -> bool {
        &&& self.res.wf()
        &&& self.diags.wf()
    }

    spec fn sv(&self) -> Seq<Seq<(Seq<char>, NodeId)>> {
        scopes_view(self.scopes@)
    }

    /// The tables are the same in both states.
    spec fn same_tables(&self, other: &Resolver) -> bool {
        &&& self.res.functions == other.res.functions
        &&& self.res.consts == other.res.consts
        &&& self.res.structs == other.res.structs
    }
}

impl Resolver {
    // ---- scope management ----

    fn push_scope(&mut self)
        ensures
            final(self).sv() == old(self).sv().push(Seq::empty()),
            final(self).res == old(self).res,
            final(self).diags == old(self).diags,
    {
        let ghost before = self.scopes@;
        self.scopes.push(Vec::new());
        assert(self.sv().last() =~= Seq::<(Seq<char>, NodeId)>::empty());
        assert(self.sv() =~= scopes_view(before).push(Seq::empty()));
    }

    fn pop_scope(&mut self)
        requires
            old(self).sv().len() > 0,
        ensures
            final(self).sv() == old(self).sv().drop_last(),
            final(self).res == old(self).res,
            final(self).diags == old(self).diags,
    {
        let ghost before = self.scopes@;
        let _ = self.scopes.pop();
        assert(self.sv() =~= scopes_view(before).drop_last());
    }

    /// Introduces a binding in the innermost scope and records its info.
    fn declare(&mut self, def: NodeId, name: &str, mutable: bool, span: Span)
        requires
            old(self).inv(),
        ensures
            final(self).inv(),
            final(self).same_tables(old(self)),
            final(self).res.uses == old(self).res.uses,
            final(self).diags == old(self).diags,
            old(self).sv().len() > 0 ==> final(self).sv() == old(self).sv().drop_last().push(
                old(self).sv().last().push((name@, def)),
            ),
            old(self).sv().len() == 0 ==> final(self).sv() == old(self).sv(),
            final(self).res.locals@.contains_key(def),
            final(self).res.locals@[def].name@ == name@,
            final(self).res.locals@[def].mutable == mutable,
            final(self).res.locals@[def].span == span,
            final(self).res.locals@.remove(def) == old(self).res.locals@.remove(def),
            locals_view(final(self).res.locals@) == locals_view(old(self).res.locals@).insert(
                def,
                (name@, mutable, span),
            ),
    {
        let ghost before = self.scopes@;
        if self.scopes.len() > 0 {
            let mut top = self.scopes.pop().unwrap();
            let ghost top_before = top@;
            top.push((name.to_owned(), def));
            self.scopes.push(top);
            proof {
                let b = scopes_view(before);
                assert(b.last() == top_before.map_values(|x: (String, NodeId)| (x.0@, x.1)));
                assert(self.sv().last() =~= b.last().push((name@, def)));
                assert(self.sv() =~= b.drop_last().push(b.last().push((name@, def))));
            }
        }
        let ghost locals_before = self.res.locals@;
        self.res.locals.insert(def, LocalInfo { name: name.to_owned(), mutable, span });
        assert(self.res.locals@.remove(def) =~= locals_before.remove(def));
        proof {
            assert forall|k: NodeId| k != def implies (self.res.locals@.contains_key(k) == locals_before.contains_key(k)
                && (self.res.locals@.contains_key(k) ==> self.res.locals@[k] == locals_before[k])) by {
                assert(self.res.locals@.remove(def).contains_key(k) == self.res.locals@.contains_key(k));
                assert(locals_before.remove(def).contains_key(k) == locals_before.contains_key(k));
                if self.res.locals@.contains_key(k) {
                    assert(self.res.locals@.remove(def)[k] == self.res.locals@[k]);
                    assert(locals_before.remove(def)[k] == locals_before[k]);
                }
            }
            assert(locals_view(self.res.locals@) =~= locals_view(locals_before).insert(def, (name@, mutable, span)));
        }
    }

    /// Finds the nearest enclosing definition of `name`.
    fn lookup_local(&self, name: &str) -> (r: Option<NodeId>)
        ensures
            r == scopes_lookup(self.sv(), name@),
    {
        let ghost sv = self.sv();
        let mut i: usize = self.scopes.len();
        assert(sv.take(i as int) =~= sv);
        while i > 0
            invariant
                0 <= i <= self.scopes@.len(),
                sv == self.sv(),
                scopes_lookup(sv, name@) == scopes_lookup(sv.take(i as int), name@),
            decreases i,
        {
            let scope = &self.scopes[i - 1];
            let ghost sc = sv[i - 1];
            assert(sc == scope@.map_values(|x: (String, NodeId)| (x.0@, x.1)));
            assert(sv.take(i as int).drop_last() =~= sv.take(i - 1));
            assert(sv.take(i as int).last() == sc);
            let mut j: usize = scope.len();
            assert(sc.take(j as int) =~= sc);
            while j > 0
                invariant
                    0 <= j <= scope@.len(),
                    0 < i <= self.scopes@.len(),
                    sv == self.sv(),
                    scopes_lookup(sv, name@) == scopes_lookup(sv.take(i as int), name@),
                    sv.take(i as int).last() == sc,
                    sv.take(i as int).len() > 0,
                    sc.len() == scope@.len(),
                    forall|k: int| 0 <= k < sc.len() ==> #[trigger] sc[k] == (scope@[k].0@, scope@[k].1),
                    scope_lookup(sc, name@) == scope_lookup(sc.take(j as int), name@),
                decreases j,
            {
                assert(sc.take(j as int).drop_last() =~= sc.take(j - 1));
                assert(sc.take(j as int).last() == sc[j - 1]);
                if str_eq(scope[j - 1].0.as_str(), name) {
                    assert(sc[j - 1] == (scope@[j - 1].0@, scope@[j - 1].1));
                    assert(scope_lookup(sc.take(j as int), name@) == Some(scope@[j - 1].1));
                    assert(scopes_lookup(sv.take(i as int), name@) == Some(scope@[j - 1].1));
                    return Some(scope[j - 1].1);
                }
                j = j - 1;
            }
            assert(sc.take(0) =~= Seq::<(Seq<char>, NodeId)>::empty());
            i = i - 1;
        }
        assert(sv.take(0) =~= Seq::<Seq<(Seq<char>, NodeId)>>::empty());
        None
    }
}

impl Resolver {
    /// What a walk of the tree keeps: the invariant, the global tables, and
    /// every diagnostic reported before it.
    spec fn walked(&self, before: &Resolver) -> bool {
        &&& self.inv()
        &&& self.same_tables(before)
        &&& extends(before.diags.spec_items(), self.diags.spec_items())
        &&& keys_kept(before.res.uses@, self.res.uses@)
    }

    /// What was reported since `before` are `n` unresolved names.
    spec fn missed(&self, before: &Resolver, n: nat) -> bool {
        &&& self.diags.spec_items().len() == before.diags.spec_items().len() + n
        &&& forall|k: int|
            before.diags.spec_items().len() <= k < self.diags.spec_items().len()
                ==> (#[trigger] self.diags.spec_items()[k]).code == DiagCode::UnresolvedName
    }

    /// At least one diagnostic was reported since `before`.
    spec fn reported(&self, before: &Resolver) -> bool {
        self.diags.spec_items().len() > before.diags.spec_items().len()
    }

    /// First pass: registers every top-level name (functions, constants and
    /// structs share one namespace), keeping the first declaration of each
    /// name and reporting the rest.
    fn collect_globals(&mut self, ast: &Ast)
        requires
            old(self).inv(),
            old(self).res.functions.names().len() == 0,
            old(self).res.functions.items().len() == 0,
            old(self).res.consts.names().len() == 0,
            old(self).res.consts.items().len() == 0,
            old(self).res.structs.names().len() == 0,
            old(self).res.structs.items().len() == 0,
            ast.items@.len() <= u32::MAX,
        ensures
            final(self).inv(),
            tables_match(&final(self).res, ast.items@),
            extends(old(self).diags.spec_items(), final(self).diags.spec_items()),
            final(self).diags.spec_items().len() == old(self).diags.spec_items().len() + redeclarations(
                ast.items@,
                ast.items@.len(),
            ),
            forall|k: int|
                old(self).diags.spec_items().len() <= k < final(self).diags.spec_items().len()
                    ==> (#[trigger] final(self).diags.spec_items()[k]).code == DiagCode::DuplicateDefinition,
            final(self).res.locals == old(self).res.locals,
            final(self).scopes == old(self).scopes,
    {
        let ghost items = ast.items@;
        let ghost start = self.diags.spec_items();
        // The first declaration of each name seen so far, with its span.
        let mut seen_names: Vec<String> = Vec::new();
        let mut seen_spans: Vec<Span> = Vec::new();
        let mut idx: usize = 0;
        proof {
            assert(declared(items, 0, 0) =~= Seq::<usize>::empty());
            assert(declared(items, 0, 1) =~= Seq::<usize>::empty());
            assert(declared(items, 0, 2) =~= Seq::<usize>::empty());
            assert(self.res.functions.names() =~= names_at(items, declared(items, 0, 0)));
            assert(self.res.consts.names() =~= names_at(items, declared(items, 0, 1)));
            assert(self.res.structs.names() =~= names_at(items, declared(items, 0, 2)));
        }
        while idx < ast.items.len()
            invariant
                self.inv(),
                items == ast.items@,
                items.len() <= u32::MAX,
                0 <= idx <= items.len(),
                self.res.functions.items() == declared(items, idx as nat, 0),
                self.res.functions.names() == names_at(items, declared(items, idx as nat, 0)),
                self.res.consts.items() == declared(items, idx as nat, 1),
                self.res.consts.names() == names_at(items, declared(items, idx as nat, 1)),
                self.res.structs.items() == declared(items, idx as nat, 2),
                self.res.structs.names() == names_at(items, declared(items, idx as nat, 2)),
                seen_names@.len() == seen_spans@.len(),
                forall|x: Seq<char>|
                    (exists|j: int| 0 <= j < idx && #[trigger] item_name(items[j]) == x) <==> texts(
                        seen_names@,
                    ).contains(x),
                extends(start, self.diags.spec_items()),
                self.diags.spec_items().len() == start.len() + redeclarations(items, idx as nat),
                forall|k: int|
                    start.len() <= k < self.diags.spec_items().len()
                        ==> (#[trigger] self.diags.spec_items()[k]).code == DiagCode::DuplicateDefinition,
                self.res.locals == old(self).res.locals,
                self.scopes == old(self).scopes,
            decreases items.len() - idx,
        {
            let item = &ast.items[idx];
            let (name, name_span, tag): (String, Span, u8) = match &item.kind {
                ItemKind::Fn(decl) => (decl.name.name.clone(), decl.name.span, 0),
                ItemKind::Const(decl) => (decl.name.name.clone(), decl.name.span, 1),
                ItemKind::Struct(decl) => (decl.name.name.clone(), decl.name.span, 2),
            };
            assert(name@ == item_name(items[idx as int]));
            assert(tag == item_tag(items[idx as int]));
            // Look for an earlier declaration of the same name.
            let mut k: usize = 0;
            let mut first: Option<Span> = None;
            while k < seen_names.len()
                invariant
                    0 <= k <= seen_names@.len(),
                    seen_names@.len() == seen_spans@.len(),
                    first is None ==> forall|q: int| 0 <= q < k ==> texts(seen_names@)[q] != name@,
                    first is Some ==> texts(seen_names@).contains(name@),
                ensures
                    first is None ==> forall|q: int| 0 <= q < seen_names@.len() ==> texts(seen_names@)[q] != name@,
                    first is Some ==> texts(seen_names@).contains(name@),
                decreases seen_names@.len() - k,
            {
                if str_eq(seen_names[k].as_str(), name.as_str()) {
                    first = Some(seen_spans[k]);
                    assert(texts(seen_names@)[k as int] == name@);
                    break;
                }
                k = k + 1;
            }
            let ghost diags_before = self.diags.spec_items();
            match first {
                Some(first_span) => {
                    proof {
                        let j = choose|j: int| 0 <= j < idx && #[trigger] item_name(items[j]) == name@;
                        assert(!first_declaration(items, idx as int));
                        assert(declared(items, (idx + 1) as nat, 0) == declared(items, idx as nat, 0));
                        assert(declared(items, (idx + 1) as nat, 1) == declared(items, idx as nat, 1));
                        assert(declared(items, (idx + 1) as nat, 2) == declared(items, idx as nat, 2));
                    }
                    let msg = cat3("`", name.as_str(), "` is defined multiple times");
                    self.diags.emit(
                        Diagnostic::error(DiagCode::DuplicateDefinition, msg.as_str()).with_primary(
                            name_span,
                            "redefined here",
                        ).with_label(first_span, "first defined here"),
                    );
                    proof {
                        assert forall|x: Seq<char>|
                            (exists|j: int| 0 <= j < idx + 1 && #[trigger] item_name(items[j]) == x) implies texts(
                            seen_names@,
                        ).contains(x) by {
                            let j = choose|j: int| 0 <= j < idx + 1 && #[trigger] item_name(items[j]) == x;
                            if j == idx {
                                assert(texts(seen_names@).contains(name@));
                            } else {
                                assert(exists|j: int| 0 <= j < idx && #[trigger] item_name(items[j]) == x);
                            }
                        }
                    }
                },
                None => {
                    proof {
                        assert(!texts(seen_names@).contains(name@)) by {
                            if texts(seen_names@).contains(name@) {
                                let q = choose|q: int|
                                    0 <= q < texts(seen_names@).len() && texts(seen_names@)[q] == name@;
                                assert(texts(seen_names@)[q] != name@);
                            }
                        }
                        assert forall|j: int| 0 <= j < idx implies item_name(items[j]) != name@ by {
                            if item_name(items[j]) == name@ {
                                assert(exists|j: int| 0 <= j < idx && #[trigger] item_name(items[j]) == name@);
                            }
                        }
                        assert(first_declaration(items, idx as int));
                        lemma_fresh_name(items, idx as nat, tag, name@);
                        lemma_declared_below(items, idx as nat, tag);
                    }
                    let ghost seen_before = seen_names@;
                    seen_names.push(name.clone());
                    seen_spans.push(name_span);
                    proof {
                        assert(texts(seen_names@) =~= texts(seen_before).push(name@));
                        assert forall|x: Seq<char>|
                            (exists|j: int| 0 <= j < idx + 1 && #[trigger] item_name(items[j]) == x) <==> texts(
                            seen_names@,
                        ).contains(x) by {
                            if texts(seen_names@).contains(x) {
                                if x == name@ {
                                    assert(item_name(items[idx as int]) == x);
                                } else {
                                    let q = choose|q: int|
                                        0 <= q < texts(seen_names@).len() && texts(seen_names@)[q] == x;
                                    assert(texts(seen_before)[q] == x);
                                    assert(texts(seen_before).contains(x));
                                }
                            }
                            if exists|j: int| 0 <= j < idx + 1 && #[trigger] item_name(items[j]) == x {
                                let j = choose|j: int| 0 <= j < idx + 1 && #[trigger] item_name(items[j]) == x;
                                if j == idx {
                                    assert(texts(seen_names@)[seen_before.len() as int] == x);
                                } else {
                                    assert(texts(seen_before).contains(x));
                                    let q = choose|q: int|
                                        0 <= q < texts(seen_before).len() && texts(seen_before)[q] == x;
                                    assert(texts(seen_names@)[q] == x);
                                }
                            }
                        }
                    }
                    if tag == 0 {
                        let ghost pos = declared(items, idx as nat, 0);
                        self.res.functions.table.push(name, idx);
                        assert(names_at(items, pos.push(idx)) =~= names_at(items, pos).push(name@));
                    } else if tag == 1 {
                        let ghost pos = declared(items, idx as nat, 1);
                        self.res.consts.table.push(name, idx);
                        assert(names_at(items, pos.push(idx)) =~= names_at(items, pos).push(name@));
                    } else {
                        let ghost pos = declared(items, idx as nat, 2);
                        self.res.structs.table.push(name, idx);
                        assert(names_at(items, pos.push(idx)) =~= names_at(items, pos).push(name@));
                    }
                },
            }
            idx = idx + 1;
        }
    }
}

/// Some string of `cands` has the text `x`.
spec fn listed(cands: Seq<&str>, x: Seq<char>) -> bool {
    exists|q: int| 0 <= q < cands.len() && (#[trigger] cands[q])@ == x
}

proof fn lemma_listed_push(cands: Seq<&str>, s: &str, x: Seq<char>)
    requires
        listed(cands, x) || x == s@,
    ensures
        listed(cands.push(s), x),
{
    if x == s@ {
        assert(cands.push(s)[cands.len() as int] == s);
    } else {
        let q = choose|q: int| 0 <= q < cands.len() && (#[trigger] cands[q])@ == x;
        assert(cands.push(s)[q] == cands[q]);
    }
}

impl Resolver {
    /// Suggests the in-scope name closest to `name` (locals, functions,
    /// constants, builtins), for a "did you mean ...?" help line.
    fn suggest_name(&self, name: &str) -> (r: Option<String>)
        requires
            self.inv(),
        ensures
            r matches Some(h) ==> {
                &&& in_scope_name(self.sv(), self.res.functions.names(), self.res.consts.names(), h@)
                &&& searchable(name@)
                &&& searchable(h@)
                &&& lev(name@, h@) <= spec_threshold((name.spec_bytes().len() as usize) as nat)
            },
            r is None ==> !searchable(name@) || forall|x: Seq<char>|
                in_scope_name(self.sv(), self.res.functions.names(), self.res.consts.names(), x) && searchable(x)
                    ==> lev(name@, x) > spec_threshold((name.spec_bytes().len() as usize) as nat),
    {
        let ghost sv = self.sv();
        let ghost fns = self.res.functions.names();
        let ghost consts = self.res.consts.names();
        let mut cands: Vec<&str> = Vec::new();
        let mut i: usize = 0;
        while i < self.scopes.len()
            invariant
                0 <= i <= self.scopes@.len(),
                sv == self.sv(),
                forall|q: int| 0 <= q < cands@.len() ==> in_scope_name(sv, fns, consts, (#[trigger] cands@[q])@),
                forall|a: int, b: int| 0 <= a < i && 0 <= b < sv[a].len() ==> listed(cands@, #[trigger] sv[a][b].0),
            decreases self.scopes@.len() - i,
        {
            let scope = &self.scopes[i];
            let mut j: usize = 0;
            while j < scope.len()
                invariant
                    0 <= i < self.scopes@.len(),
                    0 <= j <= scope@.len(),
                    sv == self.sv(),
                    scope == &self.scopes@[i as int],
                    forall|q: int| 0 <= q < cands@.len() ==> in_scope_name(sv, fns, consts, (#[trigger] cands@[q])@),
                    forall|a: int, b: int| 0 <= a < i && 0 <= b < sv[a].len() ==> listed(cands@, #[trigger] sv[a][b].0),
                    forall|b: int| 0 <= b < j ==> listed(cands@, #[trigger] sv[i as int][b].0),
                decreases scope@.len() - j,
            {
                let s = scope[j].0.as_str();
                let ghost before = cands@;
                proof {
                    assert(sv[i as int][j as int].0 == s@);
                    assert(in_scope_name(sv, fns, consts, s@));
                }
                cands.push(s);
                proof {
                    assert forall|a: int, b: int| 0 <= a < i && 0 <= b < sv[a].len() implies listed(
                        cands@,
                        #[trigger] sv[a][b].0,
                    ) by {
                        lemma_listed_push(before, s, sv[a][b].0);
                    }
                    assert forall|b: int| 0 <= b < j + 1 implies listed(cands@, #[trigger] sv[i as int][b].0) by {
                        lemma_listed_push(before, s, sv[i as int][b].0);
                    }
                }
                j = j + 1;
            }
            i = i + 1;
        }
        let mut k: usize = 0;
        while k < self.res.functions.table.names.len()
            invariant
                0 <= k <= fns.len(),
                fns == texts(self.res.functions.table.names@),
                forall|q: int| 0 <= q < cands@.len() ==> in_scope_name(sv, fns, consts, (#[trigger] cands@[q])@),
                forall|a: int, b: int| 0 <= a < sv.len() && 0 <= b < sv[a].len() ==> listed(cands@, #[trigger] sv[a][b].0),
                forall|b: int| 0 <= b < k ==> listed(cands@, #[trigger] fns[b]),
            decreases fns.len() - k,
        {
            let s = self.res.functions.table.names[k].as_str();
            let ghost before = cands@;
            proof {
                assert(fns[k as int] == s@);
                assert(fns.contains(s@));
            }
            cands.push(s);
            proof {
                assert forall|a: int, b: int| 0 <= a < sv.len() && 0 <= b < sv[a].len() implies listed(
                    cands@,
                    #[trigger] sv[a][b].0,
                ) by {
                    lemma_listed_push(before, s, sv[a][b].0);
                }
                assert forall|b: int| 0 <= b < k + 1 implies listed(cands@, #[trigger] fns[b]) by {
                    lemma_listed_push(before, s, fns[b]);
                }
            }
            k = k + 1;
        }
        let mut k: usize = 0;
        while k < self.res.consts.table.names.len()
            invariant
                0 <= k <= consts.len(),
                consts == texts(self.res.consts.table.names@),
                forall|q: int| 0 <= q < cands@.len() ==> in_scope_name(sv, fns, consts, (#[trigger] cands@[q])@),
                forall|a: int, b: int| 0 <= a < sv.len() && 0 <= b < sv[a].len() ==> listed(cands@, #[trigger] sv[a][b].0),
                forall|b: int| 0 <= b < fns.len() ==> listed(cands@, #[trigger] fns[b]),
                forall|b: int| 0 <= b < k ==> listed(cands@, #[trigger] consts[b]),
            decreases consts.len() - k,
        {
            let s = self.res.consts.table.names[k].as_str();
            let ghost before = cands@;
            proof {
                assert(consts[k as int] == s@);
                assert(consts.contains(s@));
            }
            cands.push(s);
            proof {
                assert forall|a: int, b: int| 0 <= a < sv.len() && 0 <= b < sv[a].len() implies listed(
                    cands@,
                    #[trigger] sv[a][b].0,
                ) by {
                    lemma_listed_push(before, s, sv[a][b].0);
                }
                assert forall|b: int| 0 <= b < fns.len() implies listed(cands@, #[trigger] fns[b]) by {
                    lemma_listed_push(before, s, fns[b]);
                }
                assert forall|b: int| 0 <= b < k + 1 implies listed(cands@, #[trigger] consts[b]) by {
                    lemma_listed_push(before, s, consts[b]);
                }
            }
            k = k + 1;
        }
        let all = Builtin::all();
        let mut k: usize = 0;
        while k < all.len()
            invariant
                0 <= k <= all@.len(),
                forall|b: Builtin| #[trigger] all@.contains(b),
                forall|q: int| 0 <= q < cands@.len() ==> in_scope_name(sv, fns, consts, (#[trigger] cands@[q])@),
                forall|a: int, b: int| 0 <= a < sv.len() && 0 <= b < sv[a].len() ==> listed(cands@, #[trigger] sv[a][b].0),
                forall|b: int| 0 <= b < fns.len() ==> listed(cands@, #[trigger] fns[b]),
                forall|b: int| 0 <= b < consts.len() ==> listed(cands@, #[trigger] consts[b]),
                forall|b: int| 0 <= b < k ==> listed(cands@, builtin_name(#[trigger] all@[b])),
            decreases all@.len() - k,
        {
            let s = all[k].name();
            let ghost before = cands@;
            cands.push(s);
            proof {
                assert forall|a: int, b: int| 0 <= a < sv.len() && 0 <= b < sv[a].len() implies listed(
                    cands@,
                    #[trigger] sv[a][b].0,
                ) by {
                    lemma_listed_push(before, s, sv[a][b].0);
                }
                assert forall|b: int| 0 <= b < fns.len() implies listed(cands@, #[trigger] fns[b]) by {
                    lemma_listed_push(before, s, fns[b]);
                }
                assert forall|b: int| 0 <= b < consts.len() implies listed(cands@, #[trigger] consts[b]) by {
                    lemma_listed_push(before, s, consts[b]);
                }
                assert forall|b: int| 0 <= b < k + 1 implies listed(cands@, builtin_name(#[trigger] all@[b])) by {
                    lemma_listed_push(before, s, builtin_name(all@[b]));
                }
            }
            k = k + 1;
        }
        let sorted = sorted_unique(&cands);
        let found = closest(name, &sorted);
        proof {
            assert forall|x: Seq<char>| in_scope_name(sv, fns, consts, x) implies listed(cands@, x) by {
                if exists|a: int, b: int| 0 <= a < sv.len() && 0 <= b < sv[a].len() && #[trigger] sv[a][b].0 == x {
                    let (a, b) = choose|a: int, b: int| 0 <= a < sv.len() && 0 <= b < sv[a].len() && #[trigger] sv[a][b].0 == x;
                    assert(listed(cands@, sv[a][b].0));
                } else if fns.contains(x) {
                    let b = choose|b: int| 0 <= b < fns.len() && fns[b] == x;
                    assert(listed(cands@, fns[b]));
                } else if consts.contains(x) {
                    let b = choose|b: int| 0 <= b < consts.len() && consts[b] == x;
                    assert(listed(cands@, consts[b]));
                } else {
                    let bi = choose|bi: Builtin| builtin_name(bi) == x;
                    assert(all@.contains(bi));
                    let b = choose|b: int| 0 <= b < all@.len() && all@[b] == bi;
                    assert(listed(cands@, builtin_name(all@[b])));
                }
            }
        }
        match found {
            Some(h) => {
                proof {
                    assert(cands@.contains(h));
                    let q = choose|q: int| 0 <= q < cands@.len() && cands@[q] == h;
                    assert(in_scope_name(sv, fns, consts, cands@[q]@));
                }
                Some(h.to_owned())
            },
            None => {
                proof {
                    if searchable(name@) {
                        assert forall|x: Seq<char>|
                            in_scope_name(sv, fns, consts, x) && searchable(x) implies lev(name@, x)
                            > spec_threshold((name.spec_bytes().len() as usize) as nat) by {
                            assert(listed(cands@, x));
                            let q = choose|q: int| 0 <= q < cands@.len() && (#[trigger] cands@[q])@ == x;
                            assert(exists|i: int| 0 <= i < sorted@.len() && (#[trigger] sorted@[i])@ == (#[trigger] cands@[q])@);
                            let i = choose|i: int| 0 <= i < sorted@.len() && (#[trigger] sorted@[i])@ == cands@[q]@;
                            assert(searchable(sorted@[i]@));
                        }
                    }
                }
                None
            },
        }
    }
}

impl Resolver {
    /// Resolves a single name use against locals, then functions, then
    /// constants, then builtins; reports it when nothing matches.
    fn resolve_name(&mut self, use_id: NodeId, name: &str, span: Span)
        requires
            old(self).inv(),
        ensures
            final(self).inv(),
            final(self).same_tables(old(self)),
            final(self).scopes == old(self).scopes,
            final(self).res.locals == old(self).res.locals,
            resolvable(old(self).sv(), old(self).res.functions.names(), old(self).res.consts.names(), name@) ==> {
                &&& final(self).res.uses@.contains_key(use_id)
                &&& resolves_to(
                    old(self).sv(),
                    old(self).res.functions.names(),
                    old(self).res.consts.names(),
                    name@,
                    final(self).res.uses@[use_id],
                )
                &&& final(self).res.uses@ == old(self).res.uses@.insert(use_id, final(self).res.uses@[use_id])
                &&& final(self).diags == old(self).diags
            },
            !resolvable(old(self).sv(), old(self).res.functions.names(), old(self).res.consts.names(), name@) ==> {
                &&& final(self).res.uses == old(self).res.uses
                &&& extends(old(self).diags.spec_items(), final(self).diags.spec_items())
                &&& final(self).diags.spec_items().len() == old(self).diags.spec_items().len() + 1
                &&& final(self).diags.spec_items().last().code == DiagCode::UnresolvedName
                &&& final(self).diags.spec_items().last().message@ == "cannot find `"@ + name@
                    + "` in this scope"@
            },
    {
        proof {
            reveal_strlit("cannot find `");
            reveal_strlit("` in this scope");
        }
        let ghost sv = self.sv();
        let ghost fns = self.res.functions.names();
        let ghost consts = self.res.consts.names();
        if let Some(def) = self.lookup_local(name) {
            self.res.uses.insert(use_id, Res::Local(def));
        } else if let Some(fn_id) = self.res.functions.lookup(name) {
            self.res.uses.insert(use_id, Res::Fn(fn_id));
        } else if let Some(const_id) = self.res.consts.lookup(name) {
            self.res.uses.insert(use_id, Res::Const(const_id));
        } else if let Some(builtin) = Builtin::from_name(name) {
            self.res.uses.insert(use_id, Res::Builtin(builtin));
        } else {
            let msg = cat3("cannot find `", name, "` in this scope");
            let mut diag = Diagnostic::error(DiagCode::UnresolvedName, msg.as_str()).with_primary(
                span,
                "not found in this scope",
            );
            match self.suggest_name(name) {
                Some(hint) => {
                    let help = cat3("did you mean `", hint.as_str(), "`?");
                    diag = diag.with_help(help.as_str());
                },
                None => {},
            }
            self.diags.emit(diag);
        }
    }

    /// Resolves a constant's initialiser. Constants live in the global scope,
    /// so the initialiser sees no locals, only other globals.
    fn resolve_const(&mut self, decl: &ConstDecl)
        requires
            old(self).inv(),
        ensures
            final(self).walked(old(self)),
            final(self).sv() == old(self).sv(),
            names_done_e(decl.value, final(self).res.uses@) || final(self).reported(old(self)),
            locals_view(final(self).res.locals@) == bind_e(decl.value, locals_view(old(self).res.locals@)),
            final(self).missed(
                old(self),
                miss_e(decl.value, old(self).sv(), old(self).res.functions.names(), old(self).res.consts.names()),
            ),
    {
        self.resolve_expr(&decl.value);
    }

    fn resolve_fn(&mut self, decl: &FnDecl)
        requires
            old(self).inv(),
        ensures
            final(self).walked(old(self)),
            final(self).sv() == old(self).sv(),
            names_done_b(decl.body, final(self).res.uses@) || final(self).reported(old(self)),
            locals_view(final(self).res.locals@) == bind_b(
                decl.body,
                bind_params(decl.params@, decl.params@.len(), locals_view(old(self).res.locals@)),
            ),
            ({
                let r = repeated_params(decl.params@, decl.params@.len());
                let n0 = old(self).diags.spec_items().len();
                &&& final(self).diags.spec_items().len() == n0 + r + miss_b(
                    decl.body,
                    old(self).sv().push(param_scope(decl.params@, decl.params@.len())),
                    old(self).res.functions.names(),
                    old(self).res.consts.names(),
                )
                &&& forall|k: int|
                    n0 <= k < n0 + r ==> (#[trigger] final(self).diags.spec_items()[k]).code
                        == DiagCode::DuplicateParameter
                &&& forall|k: int|
                    n0 + r <= k < final(self).diags.spec_items().len()
                        ==> (#[trigger] final(self).diags.spec_items()[k]).code == DiagCode::UnresolvedName
            }),
    {
        let ghost start = *self;
        self.push_scope();
        // Parameters share one scope; duplicates are an error (not shadowing).
        let mut seen: Vec<&str> = Vec::new();
        let mut seen_spans: Vec<Span> = Vec::new();
        let mut i: usize = 0;
        while i < decl.params.len()
            invariant
                self.walked(&start),
                self.sv().len() == start.sv().len() + 1,
                self.sv().drop_last() == start.sv(),
                seen@.len() == seen_spans@.len(),
                0 <= i <= decl.params@.len(),
                locals_view(self.res.locals@) == bind_params(decl.params@, i as nat, locals_view(start.res.locals@)),
                self.sv() == start.sv().push(param_scope(decl.params@, i as nat)),
                self.diags.spec_items().len() == start.diags.spec_items().len() + repeated_params(decl.params@, i as nat),
                forall|k: int|
                    start.diags.spec_items().len() <= k < self.diags.spec_items().len()
                        ==> (#[trigger] self.diags.spec_items()[k]).code == DiagCode::DuplicateParameter,
                forall|q: int| 0 <= q < seen@.len() ==> #[trigger] seen_by(seen@[q]@, decl.params@, i as int),
                forall|j: int| 0 <= j < i ==> #[trigger] listed_in(decl.params@[j].name.name@, seen@),
            decreases decl.params@.len() - i,
        {
            let param = &decl.params[i];
            let pname = param.name.name.as_str();
            let mut k: usize = 0;
            let mut first: Option<Span> = None;
            while k < seen.len()
                invariant
                    0 <= k <= seen@.len(),
                    seen@.len() == seen_spans@.len(),
                    first is None ==> forall|q: int| 0 <= q < k ==> (#[trigger] seen@[q])@ != pname@,
                    first is Some ==> exists|q: int| 0 <= q < seen@.len() && (#[trigger] seen@[q])@ == pname@,
                ensures
                    first is None ==> forall|q: int| 0 <= q < seen@.len() ==> (#[trigger] seen@[q])@ != pname@,
                    first is Some ==> exists|q: int| 0 <= q < seen@.len() && (#[trigger] seen@[q])@ == pname@,
                decreases seen@.len() - k,
            {
                if str_eq(seen[k], pname) {
                    first = Some(seen_spans[k]);
                    break;
                }
                k = k + 1;
            }
            let ghost mid = *self;
            let ghost seen0 = seen@;
            match first {
                Some(first_span) => {
                    let msg = cat3("duplicate parameter `", pname, "`");
                    self.diags.emit(
                        Diagnostic::error(DiagCode::DuplicateParameter, msg.as_str()).with_primary(
                            param.name.span,
                            "redefined here",
                        ).with_label(first_span, "first defined here"),
                    );
                    proof {
                        let q = choose|q: int| 0 <= q < seen@.len() && (#[trigger] seen@[q])@ == pname@;
                        assert(seen_by(seen@[q]@, decl.params@, i as int));
                        let j = choose|j: int| 0 <= j < i && (#[trigger] decl.params@[j]).name.name@ == seen@[q]@;
                        assert(decl.params@[j].name.name@ == decl.params@[i as int].name.name@);
                        assert(repeated_params(decl.params@, (i + 1) as nat) == repeated_params(decl.params@, i as nat) + 1);
                        assert(listed_in(pname@, seen@));
                    }
                },
                None => {
                    seen.push(pname);
                    seen_spans.push(param.name.span);
                    proof {
                        assert(!exists|j: int|
                            0 <= j < i && #[trigger] decl.params@[j].name.name@ == decl.params@[i as int].name.name@) by {
                            if exists|j: int|
                                0 <= j < i && #[trigger] decl.params@[j].name.name@ == decl.params@[i as int].name.name@ {
                                let j = choose|j: int|
                                    0 <= j < i && #[trigger] decl.params@[j].name.name@ == decl.params@[i as int].name.name@;
                                assert(listed_in(decl.params@[j].name.name@, seen0));
                                let q = choose|q: int| 0 <= q < seen0.len() && (#[trigger] seen0[q])@ == decl.params@[j].name.name@;
                                assert(seen0[q]@ != pname@);
                            }
                        }
                        assert(repeated_params(decl.params@, (i + 1) as nat) == repeated_params(decl.params@, i as nat));
                        assert(seen@[seen0.len() as int]@ == pname@);
                        assert(listed_in(pname@, seen@));
                    }
                },
            }
            proof {
                assert forall|q: int| 0 <= q < seen@.len() implies #[trigger] seen_by(seen@[q]@, decl.params@, i + 1) by {
                    if q < seen0.len() {
                        assert(seen@[q] == seen0[q]);
                        assert(seen_by(seen0[q]@, decl.params@, i as int));
                        let j = choose|j: int| 0 <= j < i && (#[trigger] decl.params@[j]).name.name@ == seen0[q]@;
                        assert(0 <= j < i + 1 && decl.params@[j].name.name@ == seen@[q]@);
                    } else {
                        assert(decl.params@[i as int].name.name@ == seen@[q]@);
                    }
                }
                assert forall|j: int| 0 <= j < i + 1 implies #[trigger] listed_in(decl.params@[j].name.name@, seen@) by {
                    if j < i {
                        assert(listed_in(decl.params@[j].name.name@, seen0));
                        let q = choose|q: int| 0 <= q < seen0.len() && (#[trigger] seen0[q])@ == decl.params@[j].name.name@;
                        assert(seen@[q] == seen0[q]);
                    }
                }
            }
            proof {
                lemma_extends_trans(start.diags.spec_items(), mid.diags.spec_items(), self.diags.spec_items());
            }
            let ghost before = self.sv();
            self.declare(param.id, pname, false, param.name.span);
            assert(self.sv().drop_last() == before.drop_last());
            proof {
                assert(self.sv() =~= start.sv().push(param_scope(decl.params@, (i + 1) as nat)));
            }
            i = i + 1;
        }
        // The body's own block scope nests inside the parameter scope.
        let ghost mid = *self;
        self.resolve_block(&decl.body);
        proof {
            lemma_extends_trans(start.diags.spec_items(), mid.diags.spec_items(), self.diags.spec_items());
        }
        self.pop_scope();
        proof {
            assert(mid.diags.spec_items().len() >= start.diags.spec_items().len());
        }
    }

    fn resolve_block(&mut self, block: &Block)
        requires
            old(self).inv(),
        ensures
            final(self).walked(old(self)),
            final(self).sv() == old(self).sv(),
            names_done_b(*block, final(self).res.uses@) || final(self).reported(old(self)),
            locals_view(final(self).res.locals@) == bind_b(*block, locals_view(old(self).res.locals@)),
            final(self).missed(
                old(self),
                miss_b(*block, old(self).sv(), old(self).res.functions.names(), old(self).res.consts.names()),
            ),
        decreases block, 2int,
    {
        let ghost start = *self;
        self.push_scope();
        let mut i: usize = 0;
        while i < block.stmts.len()
            invariant
                self.walked(&start),
                self.sv().len() == start.sv().len() + 1,
                self.sv().drop_last() == start.sv(),
                0 <= i <= block.stmts@.len(),
                names_done_ss(block.stmts@, i as nat, self.res.uses@) || self.reported(&start),
                locals_view(self.res.locals@) == bind_ss(block.stmts@, i as nat, locals_view(start.res.locals@)),
                self.sv() == scopes_after(block.stmts@, i as nat, start.sv().push(Seq::empty())),
                self.missed(
                    &start,
                    miss_ss(
                        block.stmts@,
                        i as nat,
                        start.sv().push(Seq::empty()),
                        start.res.functions.names(),
                        start.res.consts.names(),
                    ),
                ),
            decreases block.stmts@.len() - i,
        {
            let ghost mid = *self;
            proof {
                assert(decreases_to!(block => block.stmts@[i as int]));
            }
            self.resolve_stmt(&block.stmts[i]);
            proof {
                lemma_extends_trans(start.diags.spec_items(), mid.diags.spec_items(), self.diags.spec_items());
                if names_done_ss(block.stmts@, i as nat, mid.res.uses@) {
                    lemma_done_ss(block.stmts@, i as nat, mid.res.uses@, self.res.uses@);
                }
                assert(keys_kept(start.res.uses@, self.res.uses@));
            }
            i = i + 1;
        }
        let ghost end = *self;
        match &block.tail {
            Some(tail) => {
                let ghost mid = *self;
                self.resolve_expr(tail);
                proof {
                    lemma_extends_trans(start.diags.spec_items(), mid.diags.spec_items(), self.diags.spec_items());
                    if names_done_ss(block.stmts@, i as nat, mid.res.uses@) {
                        lemma_done_ss(block.stmts@, i as nat, mid.res.uses@, self.res.uses@);
                    }
                    assert(keys_kept(start.res.uses@, self.res.uses@));
                }
            },
            None => {},
        }
        self.pop_scope();
    }

    fn resolve_stmt(&mut self, stmt: &Stmt)
        requires
            old(self).inv(),
            old(self).sv().len() > 0,
        ensures
            final(self).walked(old(self)),
            final(self).sv().len() == old(self).sv().len(),
            final(self).sv().drop_last() == old(self).sv().drop_last(),
            !(stmt.kind is Let) ==> final(self).sv() == old(self).sv(),
            stmt.kind matches StmtKind::Let(l) ==> final(self).sv().last() == old(self).sv().last().push(
                (l.name.name@, l.id),
            ),
            names_done_s(*stmt, final(self).res.uses@) || final(self).reported(old(self)),
            locals_view(final(self).res.locals@) == bind_s(*stmt, locals_view(old(self).res.locals@)),
            final(self).missed(
                old(self),
                miss_s(*stmt, old(self).sv(), old(self).res.functions.names(), old(self).res.consts.names()),
            ),
            stmt.kind matches StmtKind::Let(l) ==> final(self).sv() == old(self).sv().drop_last().push(
                old(self).sv().last().push((l.name.name@, l.id)),
            ),
            (stmt.kind matches StmtKind::Let(l) && l.init.kind is Name) ==> ({
                let l = stmt.kind->Let_0;
                name_use_resolved(
                    old(self).sv(),
                    old(self).res.functions.names(),
                    old(self).res.consts.names(),
                    l.init.kind->Name_0@,
                    l.init.id,
                    old(self).res.uses@,
                    final(self).res.uses@,
                    old(self).diags.spec_items(),
                    final(self).diags.spec_items(),
                )
            }),
        decreases stmt, 1int,
    {
        let ghost start = *self;
        match &stmt.kind {
            StmtKind::Let(l) => {
                // Resolve the initialiser first, then bring the name into
                // scope, so the initialiser cannot see the binding it defines.
                self.resolve_expr(&l.init);
                let ghost mid = *self;
                self.declare(l.id, l.name.name.as_str(), l.mutable, l.name.span);
                proof {
                    assert(self.sv() =~= start.sv().drop_last().push(start.sv().last().push((l.name.name@, l.id))));
                }
            },
            StmtKind::Expr(e) => self.resolve_expr(e),
            StmtKind::Return(e) => {
                match e {
                    Some(e) => self.resolve_expr(e),
                    None => {},
                }
            },
            StmtKind::While(w) => {
                self.resolve_expr(&w.cond);
                let ghost mid = *self;
                self.resolve_block(&w.body);
                proof {
                    lemma_extends_trans(start.diags.spec_items(), mid.diags.spec_items(), self.diags.spec_items());
                    if names_done_e(w.cond, mid.res.uses@) {
                        lemma_done_e(w.cond, mid.res.uses@, self.res.uses@);
                    }
                }
            },
            StmtKind::For(f) => {
                // The range bounds are resolved in the outer scope; the loop
                // variable is then introduced for the body only.
                self.resolve_expr(&f.start);
                let ghost m1 = *self;
                self.resolve_expr(&f.end);
                let ghost m2 = *self;
                self.push_scope();
                self.declare(f.id, f.var.name.as_str(), false, f.var.span);
                proof {
                    assert(seq![(f.var.name@, f.id)] =~= Seq::<(Seq<char>, NodeId)>::empty().push((f.var.name@, f.id)));
                    assert(self.sv() =~= start.sv().push(seq![(f.var.name@, f.id)]));
                }
                self.resolve_block(&f.body);
                self.pop_scope();
                proof {
                    lemma_extends_trans(start.diags.spec_items(), m1.diags.spec_items(), m2.diags.spec_items());
                    lemma_extends_trans(start.diags.spec_items(), m2.diags.spec_items(), self.diags.spec_items());
                    if names_done_e(f.start, m1.res.uses@) {
                        lemma_done_e(f.start, m1.res.uses@, self.res.uses@);
                    }
                    if names_done_e(f.end, m2.res.uses@) {
                        lemma_done_e(f.end, m2.res.uses@, self.res.uses@);
                    }
                }
            },
            StmtKind::ForEach(f) => {
                // The array is resolved in the outer scope; the element
                // variable is then introduced for the body only.
                self.resolve_expr(&f.iterable);
                let ghost m1 = *self;
                self.push_scope();
                self.declare(f.id, f.var.name.as_str(), false, f.var.span);
                proof {
                    assert(seq![(f.var.name@, f.id)] =~= Seq::<(Seq<char>, NodeId)>::empty().push((f.var.name@, f.id)));
                    assert(self.sv() =~= start.sv().push(seq![(f.var.name@, f.id)]));
                }
                self.resolve_block(&f.body);
                self.pop_scope();
                proof {
                    lemma_extends_trans(start.diags.spec_items(), m1.diags.spec_items(), self.diags.spec_items());
                    if names_done_e(f.iterable, m1.res.uses@) {
                        lemma_done_e(f.iterable, m1.res.uses@, self.res.uses@);
                    }
                }
            },
            StmtKind::Break | StmtKind::Continue => {},
        }
    }

    /// Resolves both operands of a binary form, left first.
    fn resolve_pair(&mut self, a: &Expr, b: &Expr, Ghost(outer): Ghost<&Expr>)
        requires
            old(self).inv(),
            decreases_to!(outer => *a),
            decreases_to!(outer => *b),
        ensures
            final(self).walked(old(self)),
            final(self).sv() == old(self).sv(),
            (names_done_e(*a, final(self).res.uses@) && names_done_e(*b, final(self).res.uses@))
                || final(self).reported(old(self)),
            locals_view(final(self).res.locals@) == bind_e(*b, bind_e(*a, locals_view(old(self).res.locals@))),
            final(self).missed(
                old(self),
                miss_e(*a, old(self).sv(), old(self).res.functions.names(), old(self).res.consts.names()) + miss_e(
                    *b,
                    old(self).sv(),
                    old(self).res.functions.names(),
                    old(self).res.consts.names(),
                ),
            ),
        decreases outer, 0int,
    {
        let ghost start = *self;
        self.resolve_expr(a);
        let ghost mid = *self;
        self.resolve_expr(b);
        proof {
            lemma_extends_trans(start.diags.spec_items(), mid.diags.spec_items(), self.diags.spec_items());
            if names_done_e(*a, mid.res.uses@) {
                lemma_done_e(*a, mid.res.uses@, self.res.uses@);
            }
        }
    }

    /// Resolves a list of expressions in order.
    fn resolve_list(&mut self, exprs: &Vec<Expr>, Ghost(outer): Ghost<&Expr>)
        requires
            old(self).inv(),
            forall|i: int| 0 <= i < exprs@.len() ==> decreases_to!(outer => #[trigger] exprs@[i]),
        ensures
            final(self).walked(old(self)),
            final(self).sv() == old(self).sv(),
            names_done_es(exprs@, exprs@.len(), final(self).res.uses@) || final(self).reported(old(self)),
            locals_view(final(self).res.locals@) == bind_es(exprs@, exprs@.len(), locals_view(old(self).res.locals@)),
            final(self).missed(
                old(self),
                miss_es(exprs@, exprs@.len(), old(self).sv(), old(self).res.functions.names(), old(self).res.consts.names()),
            ),
        decreases outer, 0int,
    {
        let ghost start = *self;
        let mut i: usize = 0;
        while i < exprs.len()
            invariant
                self.walked(&start),
                self.sv() == start.sv(),
                0 <= i <= exprs@.len(),
                forall|i: int| 0 <= i < exprs@.len() ==> decreases_to!(outer => #[trigger] exprs@[i]),
                names_done_es(exprs@, i as nat, self.res.uses@) || self.reported(&start),
                locals_view(self.res.locals@) == bind_es(exprs@, i as nat, locals_view(start.res.locals@)),
                self.missed(
                    &start,
                    miss_es(exprs@, i as nat, start.sv(), start.res.functions.names(), start.res.consts.names()),
                ),
            decreases exprs@.len() - i,
        {
            let ghost mid = *self;
            self.resolve_expr(&exprs[i]);
            proof {
                lemma_extends_trans(start.diags.spec_items(), mid.diags.spec_items(), self.diags.spec_items());
                if names_done_es(exprs@, i as nat, mid.res.uses@) {
                    lemma_done_es(exprs@, i as nat, mid.res.uses@, self.res.uses@);
                }
            }
            i = i + 1;
        }
    }

    fn resolve_expr(&mut self, expr: &Expr)
        requires
            old(self).inv(),
        ensures
            final(self).walked(old(self)),
            final(self).sv() == old(self).sv(),
            names_done_e(*expr, final(self).res.uses@) || final(self).reported(old(self)),
            (expr.kind matches ExprKind::Name(n)) ==> name_use_resolved(
                old(self).sv(),
                old(self).res.functions.names(),
                old(self).res.consts.names(),
                expr.kind->Name_0@,
                expr.id,
                old(self).res.uses@,
                final(self).res.uses@,
                old(self).diags.spec_items(),
                final(self).diags.spec_items(),
            ),
            (expr.kind is Int || expr.kind is Float || expr.kind is Bool || expr.kind is Str) ==> *final(self) == *old(
                self,
            ),
            locals_view(final(self).res.locals@) == bind_e(*expr, locals_view(old(self).res.locals@)),
            final(self).missed(
                old(self),
                miss_e(*expr, old(self).sv(), old(self).res.functions.names(), old(self).res.consts.names()),
            ),
        decreases expr, 3int,
    {
        let ghost start = *self;
        match &expr.kind {
            ExprKind::Int(_) | ExprKind::Float(_) | ExprKind::Bool(_) | ExprKind::Str(_) => {},
            ExprKind::Name(name) => self.resolve_name(expr.id, name.as_str(), expr.span),
            ExprKind::Unary { rhs, .. } => self.resolve_expr(rhs),
            ExprKind::Binary { lhs, rhs, .. } => self.resolve_pair(lhs, rhs, Ghost(expr)),
            ExprKind::Call { callee, args } => {
                self.resolve_expr(callee);
                let ghost mid = *self;
                proof {
                    assert forall|i: int| 0 <= i < args@.len() implies decreases_to!(expr => #[trigger] args@[i]) by {
                        assert(decreases_to!(expr => args@[i]));
                    }
                }
                self.resolve_list(args, Ghost(expr));
                proof {
                    lemma_extends_trans(start.diags.spec_items(), mid.diags.spec_items(), self.diags.spec_items());
                    if names_done_e(**callee, mid.res.uses@) {
                        lemma_done_e(**callee, mid.res.uses@, self.res.uses@);
                    }
                }
            },
            ExprKind::Assign { target, value } => self.resolve_pair(target, value, Ghost(expr)),
            ExprKind::AssignOp { target, value, .. } => self.resolve_pair(target, value, Ghost(expr)),
            ExprKind::ArrayLit(elems) => {
                proof {
                    assert forall|i: int| 0 <= i < elems@.len() implies decreases_to!(expr => #[trigger] elems@[i]) by {
                        assert(decreases_to!(expr => elems@[i]));
                    }
                }
                self.resolve_list(elems, Ghost(expr));
            },
            ExprKind::Index { base, index } => self.resolve_pair(base, index, Ghost(expr)),
            ExprKind::StructLit { fields, .. } => {
                // The struct name is checked against the struct table during
                // type checking; here we resolve the field value expressions.
                proof {
                    assert forall|i: int| 0 <= i < fields@.len() implies decreases_to!(expr => #[trigger] fields@[i].value) by {
                        assert(decreases_to!(expr => fields@[i]));
                        assert(decreases_to!(fields@[i] => fields@[i].value));
                    }
                }
                let mut i: usize = 0;
                while i < fields.len()
                    invariant
                        self.walked(&start),
                        self.sv() == start.sv(),
                        0 <= i <= fields@.len(),
                        forall|i: int| 0 <= i < fields@.len() ==> decreases_to!(expr => #[trigger] fields@[i].value),
                        names_done_fs(fields@, i as nat, self.res.uses@) || self.reported(&start),
                        locals_view(self.res.locals@) == bind_fs(fields@, i as nat, locals_view(start.res.locals@)),
                        self.missed(
                            &start,
                            miss_fs(fields@, i as nat, start.sv(), start.res.functions.names(), start.res.consts.names()),
                        ),
                    decreases fields@.len() - i,
                {
                    let ghost mid = *self;
                    self.resolve_expr(&fields[i].value);
                    proof {
                        lemma_extends_trans(start.diags.spec_items(), mid.diags.spec_items(), self.diags.spec_items());
                        if names_done_fs(fields@, i as nat, mid.res.uses@) {
                            lemma_done_fs(fields@, i as nat, mid.res.uses@, self.res.uses@);
                        }
                    }
                    i = i + 1;
                }
            },
            ExprKind::Field { base, .. } => {
                // The field name is resolved against the struct's declaration
                // during type checking.
                self.resolve_expr(base);
            },
            ExprKind::TupleLit(elems) => {
                proof {
                    assert forall|i: int| 0 <= i < elems@.len() implies decreases_to!(expr => #[trigger] elems@[i]) by {
                        assert(decreases_to!(expr => elems@[i]));
                    }
                }
                self.resolve_list(elems, Ghost(expr));
            },
            ExprKind::TupleIndex { base, .. } => self.resolve_expr(base),
            ExprKind::If(if_expr) => {
                self.resolve_expr(&if_expr.cond);
                let ghost m1 = *self;
                self.resolve_block(&if_expr.then_branch);
                let ghost m2 = *self;
                match &if_expr.else_branch {
                    Some(else_branch) => self.resolve_expr(else_branch),
                    None => {},
                }
                proof {
                    lemma_extends_trans(start.diags.spec_items(), m1.diags.spec_items(), m2.diags.spec_items());
                    lemma_extends_trans(start.diags.spec_items(), m2.diags.spec_items(), self.diags.spec_items());
                    if names_done_e(*if_expr.cond, m1.res.uses@) {
                        lemma_done_e(*if_expr.cond, m1.res.uses@, self.res.uses@);
                    }
                    if names_done_b(if_expr.then_branch, m2.res.uses@) {
                        lemma_done_b(if_expr.then_branch, m2.res.uses@, self.res.uses@);
                    }
                }
            },
            ExprKind::Match(m) => {
                self.resolve_expr(&m.scrutinee);
                let ghost ms = *self;
                // Patterns are literals, so they bind nothing; resolve bodies.
                proof {
                    assert forall|i: int| 0 <= i < m.arms@.len() implies decreases_to!(expr => #[trigger] m.arms@[i].body) by {
                        assert(decreases_to!(expr => m.arms@[i]));
                        assert(decreases_to!(m.arms@[i] => m.arms@[i].body));
                    }
                }
                let mut i: usize = 0;
                while i < m.arms.len()
                    invariant
                        self.walked(&start),
                        self.sv() == start.sv(),
                        0 <= i <= m.arms@.len(),
                        forall|i: int| 0 <= i < m.arms@.len() ==> decreases_to!(expr => #[trigger] m.arms@[i].body),
                        names_done_as(m.arms@, i as nat, self.res.uses@) || self.reported(&start),
                        names_done_e(*m.scrutinee, self.res.uses@) || self.reported(&start),
                        locals_view(self.res.locals@) == bind_as(m.arms@, i as nat, locals_view(ms.res.locals@)),
                        self.missed(
                            &start,
                            miss_e(*m.scrutinee, start.sv(), start.res.functions.names(), start.res.consts.names())
                                + miss_as(m.arms@, i as nat, start.sv(), start.res.functions.names(), start.res.consts.names()),
                        ),
                    decreases m.arms@.len() - i,
                {
                    let ghost mid = *self;
                    self.resolve_expr(&m.arms[i].body);
                    proof {
                        lemma_extends_trans(start.diags.spec_items(), mid.diags.spec_items(), self.diags.spec_items());
                        if names_done_as(m.arms@, i as nat, mid.res.uses@) {
                            lemma_done_as(m.arms@, i as nat, mid.res.uses@, self.res.uses@);
                        }
                        if names_done_e(*m.scrutinee, mid.res.uses@) {
                            lemma_done_e(*m.scrutinee, mid.res.uses@, self.res.uses@);
                        }
                    }
                    i = i + 1;
                }
            },
            ExprKind::Block(block) => self.resolve_block(block),
        }
    }
}

} // verus!
