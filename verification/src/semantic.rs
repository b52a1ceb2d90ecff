//! Semantic analysis in two passes: symbol collection into a table keyed by
//! name (last declaration wins), then reference resolution, which attaches
//! to each variable reference and function call the declaration its name is
//! bound to. An unresolved name that is not the built-in print primitive is
//! reported; resolution never aborts.

use vstd::prelude::*;

use crate::ast::Block;
use crate::ast::Binary;
use crate::ast::BinaryView;
use crate::ast::Decl;
use crate::ast::DeclView;
use crate::ast::ExprView;
use crate::ast::Expression;
use crate::ast::ExpressionStatement;
use crate::ast::FunctionCall;
use crate::ast::FunctionCallView;
use crate::ast::FunctionDecl;
use crate::ast::FunctionDeclView;
use crate::ast::Prog;
use crate::ast::Statement;
use crate::ast::StmtView;
use crate::ast::Variable;
use crate::ast::VariableDecl;
use crate::ast::VariableDeclView;
use crate::ast::VariableView;
use crate::ast::clone_decl;
use crate::ast::clone_fndecl;
use crate::ast::clone_vardecl;
use crate::ast::view_exprs;
use crate::ast::view_stmts;
use crate::ast::lemma_view_exprs_push;
use crate::ast::lemma_view_stmts_push;
use crate::diagnostics::Diagnostic;
use crate::diagnostics::DiagView;
use crate::diagnostics::diags_view;
use crate::diagnostics::lemma_diags_view_push;
use crate::text::str_eq;

verus! {

/// The kind of a declared symbol.
#[derive(Debug, Clone, Copy)]
pub enum SymKind {
    Variable,
    Function,
    Class,
    Interface,
}

/// One symbol table entry: a name, the declaration it stands for, and the
/// kind of that declaration.
#[derive(Debug)]
pub struct Symbol {
    pub name: String,
    pub decl: Decl,
    pub kind: SymKind,
}

/// Model of a [`Symbol`].
#[verifier::ext_equal]
pub struct SymbolView {
    pub name: Seq<char>,
    pub decl: DeclView,
    pub kind: SymKind,
}

impl View for Symbol {
    type V = SymbolView;

    open spec fn view(&self) -> SymbolView {
        SymbolView { name: self.name@, decl: self.decl@, kind: self.kind }
    }
}

impl Symbol {
    pub fn new(name: String, decl: Decl, kind: SymKind) -> (r: Self)
        ensures
            r.name == name,
            r.decl == decl,
            r.kind == kind,
    {
        Self { name, decl, kind }
    }
}

/// The name-to-symbol mapping an entry sequence denotes: later entries win.
pub open spec fn sym_map(s: Seq<Symbol>) -> Map<Seq<char>, SymbolView>
    decreases s.len(),
{
    if s.len() == 0 {
        Map::empty()
    } else {
        sym_map(s.drop_last()).insert(s.last().name@, s.last()@)
    }
}

/// Appending an entry updates the mapping at its name.
pub proof fn lemma_sym_map_push(s: Seq<Symbol>, x: Symbol)
    ensures
        sym_map(s.push(x)) == sym_map(s).insert(x.name@, x@),
{
    assert(s.push(x).drop_last() =~= s);
    assert(s.push(x).last() == x);
}

/// The mapping contains a key exactly when some entry bears that name.
pub proof fn lemma_sym_map_contains(s: Seq<Symbol>, k: Seq<char>)
    ensures
        sym_map(s).contains_key(k) <==> exists|i: int| 0 <= i < s.len() && s[i].name@ == k,
    decreases s.len(),
{
    if s.len() > 0 {
        lemma_sym_map_contains(s.drop_last(), k);
        if s.last().name@ == k {
            assert(s[s.len() - 1].name@ == k);
        } else {
            if sym_map(s).contains_key(k) {
                let i = choose|i: int| 0 <= i < s.drop_last().len() && s.drop_last()[i].name@ == k;
                assert(s[i].name@ == k);
            }
            if exists|i: int| 0 <= i < s.len() && s[i].name@ == k {
                let i = choose|i: int| 0 <= i < s.len() && s[i].name@ == k;
                assert(s.drop_last()[i].name@ == k);
            }
        }
    }
}

/// The mapping sends a key to the view of the last entry bearing that name.
pub proof fn lemma_sym_map_get(s: Seq<Symbol>, k: Seq<char>, i: int)
    requires
        0 <= i < s.len(),
        s[i].name@ == k,
        forall|j: int| i < j < s.len() ==> s[j].name@ != k,
    ensures
        sym_map(s).contains_key(k),
        sym_map(s)[k] == s[i]@,
    decreases s.len(),
{
    if i == s.len() - 1 {
    } else {
        assert(s.last().name@ != k);
        assert(s.drop_last()[i].name@ == k);
        lemma_sym_map_get(s.drop_last(), k, i);
    }
}

/// The symbol table: names of declared functions and variables, each bound
/// to its declaration. Entered later, a name shadows its earlier entry.
pub struct SymTable {
    pub table: Vec<Symbol>,
}

impl View for SymTable {
    type V = Map<Seq<char>, SymbolView>;

    open spec fn view(&self) -> Map<Seq<char>, SymbolView> {
        sym_map(self.table@)
    }
}

impl SymTable {
    pub fn new() -> (r: Self)
        ensures
            r@ == Map::<Seq<char>, SymbolView>::empty(),
    {
        let r = SymTable { table: Vec::new() };
        proof {
            assert(r.table@.len() == 0);
        }
        r
    }

    /// Binds `name` to the declaration, replacing any earlier binding.
    pub fn enter(&mut self, name: &str, decl: Decl, kind: SymKind)
        ensures
            final(self)@ == old(self)@.insert(
                name@,
                SymbolView { name: name@, decl: decl@, kind },
            ),
    {
        let sym = Symbol::new(name.to_owned(), decl, kind);
        let ghost prev = self.table@;
        let ghost symg = sym;
        self.table.push(sym);
        proof {
            lemma_sym_map_push(prev, symg);
        }
    }

    /// Whether `name` is bound.
    pub fn has_symbol(&self, name: &str) -> (r: bool)
        ensures
            r == self@.contains_key(name@),
    {
        let mut i: usize = 0;
        while i < self.table.len()
            invariant
                i <= self.table@.len(),
                forall|j: int| 0 <= j < i ==> self.table@[j].name@ != name@,
            decreases self.table@.len() - i,
        {
            if str_eq(self.table[i].name.as_str(), name) {
                proof {
                    lemma_sym_map_contains(self.table@, name@);
                }
                return true;
            }
            i += 1;
        }
        proof {
            lemma_sym_map_contains(self.table@, name@);
        }
        false
    }

    /// The symbol `name` is bound to: the latest entry bearing the name, or
    /// nothing where the name was never entered.
    pub fn get_symbol(&self, name: &str) -> (r: Option<Symbol>)
        ensures
            self@.contains_key(name@) ==> r is Some && r->0@ == self@[name@],
            !self@.contains_key(name@) ==> r is None,
    {
        let mut i: usize = self.table.len();
        while i > 0
            invariant
                i <= self.table@.len(),
                forall|j: int| i <= j < self.table@.len() ==> self.table@[j].name@ != name@,
            decreases i,
        {
            i = i - 1;
            if str_eq(self.table[i].name.as_str(), name) {
                proof {
                    lemma_sym_map_get(self.table@, name@, i as int);
                }
                let s = &self.table[i];
                let kind = s.kind;
                return Some(Symbol::new(s.name.clone(), clone_decl(&s.decl), kind));
            }
        }
        proof {
            lemma_sym_map_contains(self.table@, name@);
        }
        None
    }
}

// ---------------------------------------------------------------------------
// Symbol collection
// ---------------------------------------------------------------------------

/// Result of collecting: the table's mapping and the diagnostics reported.
#[verifier::ext_equal]
pub struct CollectOut {
    pub map: Map<Seq<char>, SymbolView>,
    pub diags: Seq<DiagView>,
}

/// Collecting one declaration: a duplicate name is reported, and the later
/// declaration wins in the table; other statements add nothing.
pub open spec fn spec_collect_stmt(m: Map<Seq<char>, SymbolView>, st: StmtView) -> CollectOut {
    match st {
        StmtView::FunctionDecl(fd) => CollectOut {
            map: m.insert(
                fd.name,
                SymbolView {
                    name: fd.name,
                    decl: DeclView::FunctionDecl(fd),
                    kind: SymKind::Function,
                },
            ),
            diags: if m.contains_key(fd.name) {
                seq![DiagView::DuplicateDeclaration(fd.name)]
            } else {
                Seq::empty()
            },
        },
        StmtView::VariableDecl(vd) => CollectOut {
            map: m.insert(
                vd.name,
                SymbolView {
                    name: vd.name,
                    decl: DeclView::VariableDecl(vd),
                    kind: SymKind::Variable,
                },
            ),
            diags: if m.contains_key(vd.name) {
                seq![DiagView::DuplicateDeclaration(vd.name)]
            } else {
                Seq::empty()
            },
        },
        StmtView::ExpressionStatement(_) => CollectOut { map: m, diags: Seq::empty() },
    }
}

/// Collecting a statement sequence, in order.
pub open spec fn spec_collect(m: Map<Seq<char>, SymbolView>, stmts: Seq<StmtView>) -> CollectOut
    decreases stmts.len(),
{
    if stmts.len() == 0 {
        CollectOut { map: m, diags: Seq::empty() }
    } else {
        let first = spec_collect_stmt(m, stmts[0]);
        let rest = spec_collect(first.map, stmts.drop_first());
        CollectOut { map: rest.map, diags: first.diags + rest.diags }
    }
}

/// The collection pass: walks the top-level statements and enters every
/// function and variable declaration into the symbol table.
pub struct Enter {
    pub sym_table: SymTable,
    pub diags: Vec<Diagnostic>,
}

impl Enter {
    pub fn new(sym_table: SymTable) -> (r: Self)
        ensures
            r.sym_table == sym_table,
            r.diags@ =~= Seq::<Diagnostic>::empty(),
    {
        Self { sym_table, diags: Vec::new() }
    }

    /// Collects every top-level declaration of the program.
    pub fn visit(&mut self, prog: &Prog)
        ensures
            ({
                let out = spec_collect(old(self).sym_table@, prog@);
                &&& final(self).sym_table@ == out.map
                &&& diags_view(final(self).diags@) == diags_view(old(self).diags@) + out.diags
            }),
    {
        let mut i: usize = 0;
        proof {
            crate::ast::lemma_view_stmts_len(prog.stmts@);
            assert(prog@.skip(0) =~= prog@);
        }
        while i < prog.stmts.len()
            invariant
                i <= prog.stmts@.len(),
                prog@.len() == prog.stmts@.len(),
                ({
                    let full = spec_collect(old(self).sym_table@, prog@);
                    let cur = spec_collect(self.sym_table@, prog@.skip(i as int));
                    &&& full.map == cur.map
                    &&& diags_view(old(self).diags@) + full.diags == diags_view(self.diags@)
                        + cur.diags
                }),
            decreases prog.stmts@.len() - i,
        {
            let ghost pre = *self;
            let ghost rem = prog@.skip(i as int);
            proof {
                crate::ast::lemma_view_stmts_index(prog.stmts@, i as int);
                assert(rem[0] == prog@[i as int]);
                assert(rem.drop_first() =~= prog@.skip(i + 1 as int));
            }
            match &prog.stmts[i] {
                Statement::FunctionDecl(fd) => {
                    self.visit_function_decl(fd);
                },
                Statement::VariableDecl(vd) => {
                    self.visit_variable_decl(vd);
                },
                _ => {},
            }
            proof {
                let step = spec_collect_stmt(pre.sym_table@, rem[0]);
                let cur2 = spec_collect(self.sym_table@, prog@.skip(i + 1 as int));
                assert((diags_view(pre.diags@) + step.diags) + cur2.diags =~= diags_view(
                pre.diags@) + (step.diags + cur2.diags));
            }
            i += 1;
        }
        proof {
            assert(prog@.skip(prog@.len() as int) =~= Seq::<StmtView>::empty());
            let full = spec_collect(old(self).sym_table@, prog@);
            assert(diags_view(self.diags@) + Seq::<DiagView>::empty() =~= diags_view(self.diags@));
        }
    }

    /// Enters a function declaration, reporting a duplicate name.
    pub fn visit_function_decl(&mut self, function_decl: &FunctionDecl)
        ensures
            ({
                let out = spec_collect_stmt(
                    old(self).sym_table@,
                    StmtView::FunctionDecl(function_decl@),
                );
                &&& final(self).sym_table@ == out.map
                &&& diags_view(final(self).diags@) == diags_view(old(self).diags@) + out.diags
            }),
    {
        let ghost d0 = self.diags@;
        if self.sym_table.has_symbol(function_decl.name.as_str()) {
            self.diags.push(Diagnostic::DuplicateDeclaration(function_decl.name.clone()));
            proof {
                lemma_diags_view_push(d0, Diagnostic::DuplicateDeclaration(function_decl.name));
                assert(diags_view(self.diags@) =~= diags_view(d0) + seq![
                    DiagView::DuplicateDeclaration(function_decl.name@),
                ]);
            }
        } else {
            proof {
                assert(diags_view(self.diags@) =~= diags_view(d0) + Seq::<DiagView>::empty());
            }
        }
        self.sym_table.enter(
            function_decl.name.as_str(),
            Decl::FunctionDecl(clone_fndecl(function_decl)),
            SymKind::Function,
        );
    }

    /// Enters a variable declaration, reporting a duplicate name.
    pub fn visit_variable_decl(&mut self, variable_decl: &VariableDecl)
        ensures
            ({
                let out = spec_collect_stmt(
                    old(self).sym_table@,
                    StmtView::VariableDecl(variable_decl@),
                );
                &&& final(self).sym_table@ == out.map
                &&& diags_view(final(self).diags@) == diags_view(old(self).diags@) + out.diags
            }),
    {
        let ghost d0 = self.diags@;
        if self.sym_table.has_symbol(variable_decl.name.as_str()) {
            self.diags.push(Diagnostic::DuplicateDeclaration(variable_decl.name.clone()));
            proof {
                lemma_diags_view_push(d0, Diagnostic::DuplicateDeclaration(variable_decl.name));
                assert(diags_view(self.diags@) =~= diags_view(d0) + seq![
                    DiagView::DuplicateDeclaration(variable_decl.name@),
                ]);
            }
        } else {
            proof {
                assert(diags_view(self.diags@) =~= diags_view(d0) + Seq::<DiagView>::empty());
            }
        }
        self.sym_table.enter(
            variable_decl.name.as_str(),
            Decl::VariableDecl(clone_vardecl(variable_decl)),
            SymKind::Variable,
        );
    }
}

} // verus!

verus! {

// ---------------------------------------------------------------------------
// Reference resolution
// ---------------------------------------------------------------------------

/// Result of resolving one expression: the rewritten expression and the
/// diagnostics reported.
#[verifier::ext_equal]
pub struct ResolveExprOut {
    pub expr: ExprView,
    pub diags: Seq<DiagView>,
}

#[verifier::ext_equal]
pub struct ResolveExprsOut {
    pub exprs: Seq<ExprView>,
    pub diags: Seq<DiagView>,
}

#[verifier::ext_equal]
pub struct ResolveVarOut {
    pub var: VariableView,
    pub diags: Seq<DiagView>,
}

#[verifier::ext_equal]
pub struct ResolveCallOut {
    pub call: FunctionCallView,
    pub diags: Seq<DiagView>,
}

#[verifier::ext_equal]
pub struct ResolveStmtOut {
    pub stmt: StmtView,
    pub diags: Seq<DiagView>,
}

#[verifier::ext_equal]
pub struct ResolveStmtsOut {
    pub stmts: Seq<StmtView>,
    pub diags: Seq<DiagView>,
}

/// The built-in output primitive, exempt from unresolved-name reports.
pub open spec fn builtin_print() -> Seq<char> {
    "print"@
}

/// Resolving a variable reference: a name bound to a variable declaration
/// is attached; any other name leaves the node unchanged, reported unless
/// it is the built-in primitive.
pub open spec fn spec_resolve_var_node(
    v: VariableView,
    m: Map<Seq<char>, SymbolView>,
) -> ResolveVarOut {
    if m.contains_key(v.name) && m[v.name].kind is Variable && m[v.name].decl is VariableDecl {
        ResolveVarOut {
            var: VariableView {
                name: v.name,
                decl: match m[v.name].decl {
                    DeclView::VariableDecl(d) => Some(d),
                    DeclView::FunctionDecl(_) => None,
                },
            },
            diags: Seq::empty(),
        }
    } else if v.name == builtin_print() {
        ResolveVarOut { var: v, diags: Seq::empty() }
    } else {
        ResolveVarOut { var: v, diags: seq![DiagView::UnresolvedVariable(v.name)] }
    }
}

/// Resolving a function call: a name bound to a function declaration is
/// attached, then the arguments are resolved in order; any other name
/// leaves the reference absent, reported unless it is the built-in.
pub open spec fn spec_resolve_call(
    fc: FunctionCallView,
    m: Map<Seq<char>, SymbolView>,
) -> ResolveCallOut
    decreases fc, 1int,
{
    let args = spec_resolve_exprs(fc.parameters, m);
    if m.contains_key(fc.name) && m[fc.name].kind is Function && m[fc.name].decl is FunctionDecl {
        ResolveCallOut {
            call: FunctionCallView {
                name: fc.name,
                parameters: args.exprs,
                decl: match m[fc.name].decl {
                    DeclView::FunctionDecl(d) => Some(d),
                    DeclView::VariableDecl(_) => None,
                },
            },
            diags: args.diags,
        }
    } else if fc.name == builtin_print() {
        ResolveCallOut {
            call: FunctionCallView { name: fc.name, parameters: args.exprs, decl: fc.decl },
            diags: args.diags,
        }
    } else {
        ResolveCallOut {
            call: FunctionCallView { name: fc.name, parameters: args.exprs, decl: fc.decl },
            diags: seq![DiagView::UnresolvedFunction(fc.name)] + args.diags,
        }
    }
}

/// Resolving an expression rewrites every variable reference and function
/// call in it, leaving everything else unchanged.
pub open spec fn spec_resolve_expr(e: ExprView, m: Map<Seq<char>, SymbolView>) -> ResolveExprOut
    decreases e, 2int,
{
    match e {
        ExprView::Variable(v) => {
            let out = spec_resolve_var_node(v, m);
            ResolveExprOut { expr: ExprView::Variable(out.var), diags: out.diags }
        },
        ExprView::FunctionCall(fc) => {
            let out = spec_resolve_call(fc, m);
            ResolveExprOut { expr: ExprView::FunctionCall(out.call), diags: out.diags }
        },
        ExprView::Binary(b) => {
            let l = spec_resolve_expr(*b.exp1, m);
            let r = spec_resolve_expr(*b.exp2, m);
            ResolveExprOut {
                expr: ExprView::Binary(
                    BinaryView { op: b.op, exp1: Box::new(l.expr), exp2: Box::new(r.expr) },
                ),
                diags: l.diags + r.diags,
            }
        },
        _ => ResolveExprOut { expr: e, diags: Seq::empty() },
    }
}

pub open spec fn spec_resolve_exprs(
    v: Seq<ExprView>,
    m: Map<Seq<char>, SymbolView>,
) -> ResolveExprsOut
    decreases v, 0int,
{
    if v.len() == 0 {
        ResolveExprsOut { exprs: Seq::empty(), diags: Seq::empty() }
    } else {
        let first = spec_resolve_expr(v[0], m);
        let rest = spec_resolve_exprs(v.drop_first(), m);
        ResolveExprsOut { exprs: seq![first.expr] + rest.exprs, diags: first.diags + rest.diags }
    }
}

/// Resolving a statement: expression statements are resolved, function
/// bodies are walked recursively, variable declarations stay as they are.
pub open spec fn spec_resolve_stmt(st: StmtView, m: Map<Seq<char>, SymbolView>) -> ResolveStmtOut
    decreases st, 1int,
{
    match st {
        StmtView::ExpressionStatement(e) => {
            let out = spec_resolve_expr(e, m);
            ResolveStmtOut { stmt: StmtView::ExpressionStatement(out.expr), diags: out.diags }
        },
        StmtView::FunctionDecl(fd) => {
            let body = spec_resolve_stmts(fd.body, m);
            ResolveStmtOut {
                stmt: StmtView::FunctionDecl(FunctionDeclView { name: fd.name, body: body.stmts }),
                diags: body.diags,
            }
        },
        StmtView::VariableDecl(_) => ResolveStmtOut { stmt: st, diags: Seq::empty() },
    }
}

pub open spec fn spec_resolve_stmts(
    v: Seq<StmtView>,
    m: Map<Seq<char>, SymbolView>,
) -> ResolveStmtsOut
    decreases v, 0int,
{
    if v.len() == 0 {
        ResolveStmtsOut { stmts: Seq::empty(), diags: Seq::empty() }
    } else {
        let first = spec_resolve_stmt(v[0], m);
        let rest = spec_resolve_stmts(v.drop_first(), m);
        ResolveStmtsOut { stmts: seq![first.stmt] + rest.stmts, diags: first.diags + rest.diags }
    }
}

/// The resolution pass: walks expression statements (and, through function
/// declarations, their bodies) and attaches declarations to use sites.
pub struct RefResolver {
    pub sym_table: SymTable,
    pub diags: Vec<Diagnostic>,
}

impl RefResolver {
    pub fn new(sym_table: SymTable) -> (r: Self)
        ensures
            r.sym_table == sym_table,
            r.diags@ =~= Seq::<Diagnostic>::empty(),
    {
        Self { sym_table, diags: Vec::new() }
    }

    /// Resolves every reference in the program, in place.
    pub fn visit(&mut self, prog: &mut Prog)
        ensures
            final(self).sym_table == old(self).sym_table,
            ({
                let out = spec_resolve_stmts(old(prog)@, old(self).sym_table@);
                &&& final(prog)@ == out.stmts
                &&& diags_view(final(self).diags@) == diags_view(old(self).diags@) + out.diags
            }),
    {
        let mut new_stmts: Vec<Statement> = Vec::new();
        let mut i: usize = 0;
        proof {
            crate::ast::lemma_view_stmts_len(prog.stmts@);
            assert(prog@.skip(0) =~= prog@);
            assert(view_stmts(new_stmts@) =~= Seq::<StmtView>::empty());
        }
        while i < prog.stmts.len()
            invariant
                i <= prog.stmts@.len(),
                prog == old(prog),
                prog@.len() == prog.stmts@.len(),
                self.sym_table == old(self).sym_table,
                ({
                    let full = spec_resolve_stmts(prog@, old(self).sym_table@);
                    let cur = spec_resolve_stmts(prog@.skip(i as int), old(self).sym_table@);
                    &&& full.stmts == view_stmts(new_stmts@) + cur.stmts
                    &&& diags_view(old(self).diags@) + full.diags == diags_view(self.diags@)
                        + cur.diags
                }),
            decreases prog.stmts@.len() - i,
        {
            let ghost rem = prog@.skip(i as int);
            let ghost prev_stmts = new_stmts@;
            let ghost prev_diags = self.diags@;
            proof {
                crate::ast::lemma_view_stmts_index(prog.stmts@, i as int);
                assert(rem[0] == prog@[i as int]);
                assert(rem.drop_first() =~= prog@.skip(i + 1 as int));
            }
            let r = self.resolve_stmt(&prog.stmts[i]);
            new_stmts.push(r);
            proof {
                lemma_view_stmts_push(prev_stmts, new_stmts@.last());
                let step = spec_resolve_stmt(rem[0], old(self).sym_table@);
                let cur2 = spec_resolve_stmts(prog@.skip(i + 1 as int), old(self).sym_table@);
                assert(view_stmts(prev_stmts) + (seq![step.stmt] + cur2.stmts) =~= view_stmts(
                new_stmts@) + cur2.stmts);
                assert((diags_view(prev_diags) + step.diags) + cur2.diags =~= diags_view(
                prev_diags) + (step.diags + cur2.diags));
            }
            i += 1;
        }
        proof {
            assert(prog@.skip(prog@.len() as int) =~= Seq::<StmtView>::empty());
            let full = spec_resolve_stmts(prog@, old(self).sym_table@);
            assert(view_stmts(new_stmts@) + Seq::<StmtView>::empty() =~= view_stmts(new_stmts@));
            assert(diags_view(self.diags@) + Seq::<DiagView>::empty() =~= diags_view(self.diags@));
        }
        prog.stmts = new_stmts;
    }

    /// Resolves one statement, walking function bodies recursively.
    #[verifier::loop_isolation(false)]
    fn resolve_stmt(&mut self, st: &Statement) -> (r: Statement)
        ensures
            final(self).sym_table == old(self).sym_table,
            ({
                let out = spec_resolve_stmt(st@, old(self).sym_table@);
                &&& r@ == out.stmt
                &&& diags_view(final(self).diags@) == diags_view(old(self).diags@) + out.diags
            }),
        decreases *st, 1int,
    {
        match st {
            Statement::ExpressionStatement(es) => {
                let e = self.resolve_expr(&es.exp);
                Statement::ExpressionStatement(ExpressionStatement::new(e))
            },
            Statement::FunctionDecl(fd) => {
                let mut body_stmts: Vec<Statement> = Vec::new();
                let mut i: usize = 0;
                proof {
                    crate::ast::lemma_view_stmts_len(fd.body.stmts@);
                    assert(view_stmts(fd.body.stmts@).skip(0) =~= view_stmts(fd.body.stmts@));
                    assert(view_stmts(body_stmts@) =~= Seq::<StmtView>::empty());
                }
                while i < fd.body.stmts.len()
                    invariant
                        i <= fd.body.stmts@.len(),
                        view_stmts(fd.body.stmts@).len() == fd.body.stmts@.len(),
                        self.sym_table == old(self).sym_table,
                        ({
                            let bodyv = view_stmts(fd.body.stmts@);
                            let full = spec_resolve_stmts(bodyv, old(self).sym_table@);
                            let cur = spec_resolve_stmts(
                                bodyv.skip(i as int),
                                old(self).sym_table@,
                            );
                            &&& full.stmts == view_stmts(body_stmts@) + cur.stmts
                            &&& diags_view(old(self).diags@) + full.diags == diags_view(
                                self.diags@,
                            ) + cur.diags
                        }),
                    decreases fd.body.stmts@.len() - i,
                {
                    let ghost bodyv = view_stmts(fd.body.stmts@);
                    let ghost rem = bodyv.skip(i as int);
                    let ghost prev_stmts = body_stmts@;
                    let ghost prev_diags = self.diags@;
                    proof {
                        crate::ast::lemma_view_stmts_index(fd.body.stmts@, i as int);
                        assert(rem[0] == bodyv[i as int]);
                        assert(rem.drop_first() =~= bodyv.skip(i + 1 as int));
                    }
                    let r = self.resolve_stmt(&fd.body.stmts[i]);
                    body_stmts.push(r);
                    proof {
                        lemma_view_stmts_push(prev_stmts, body_stmts@.last());
                        let step = spec_resolve_stmt(rem[0], old(self).sym_table@);
                        let cur2 = spec_resolve_stmts(
                            bodyv.skip(i + 1 as int),
                            old(self).sym_table@,
                        );
                        assert(view_stmts(prev_stmts) + (seq![step.stmt] + cur2.stmts)
                            =~= view_stmts(body_stmts@) + cur2.stmts);
                        assert((diags_view(prev_diags) + step.diags) + cur2.diags =~= diags_view(
                        prev_diags) + (step.diags + cur2.diags));
                    }
                    i += 1;
                }
                proof {
                    let bodyv = view_stmts(fd.body.stmts@);
                    assert(bodyv.skip(bodyv.len() as int) =~= Seq::<StmtView>::empty());
                    assert(view_stmts(body_stmts@) + Seq::<StmtView>::empty() =~= view_stmts(
                    body_stmts@));
                    assert(diags_view(self.diags@) + Seq::<DiagView>::empty() =~= diags_view(
                    self.diags@));
                }
                Statement::FunctionDecl(FunctionDecl::new(fd.name.clone(), Block::new(body_stmts)))
            },
            Statement::VariableDecl(vd) => {
                proof {
                    assert(diags_view(self.diags@) + Seq::<DiagView>::empty() =~= diags_view(
                    self.diags@));
                }
                Statement::VariableDecl(clone_vardecl(vd))
            },
        }
    }

    /// Resolves one expression, walking operands and arguments recursively.
    fn resolve_expr(&mut self, e: &Expression) -> (r: Expression)
        ensures
            final(self).sym_table == old(self).sym_table,
            ({
                let out = spec_resolve_expr(e@, old(self).sym_table@);
                &&& r@ == out.expr
                &&& diags_view(final(self).diags@) == diags_view(old(self).diags@) + out.diags
            }),
        decreases *e, 2int,
    {
        match e {
            Expression::Variable(v) => {
                let mut v2 = Variable::new(v.name.clone(), match &v.decl {
                    Some(d0) => Some(clone_vardecl(d0)),
                    None => None,
                });
                self.visit_variable(&mut v2);
                Expression::Variable(v2)
            },
            Expression::FunctionCall(fc) => {
                let r = self.resolve_call(fc);
                Expression::FunctionCall(r)
            },
            Expression::Binary(b) => {
                let l = self.resolve_expr(&b.exp1);
                let r = self.resolve_expr(&b.exp2);
                proof {
                    let lout = spec_resolve_expr(b.exp1@, old(self).sym_table@);
                    let rout = spec_resolve_expr(b.exp2@, old(self).sym_table@);
                    assert((diags_view(old(self).diags@) + lout.diags) + rout.diags =~= diags_view(
                    old(self).diags@) + (lout.diags + rout.diags));
                }
                Expression::Binary(Binary::new(b.op.clone(), Box::new(l), Box::new(r)))
            },
            _ => {
                proof {
                    assert(diags_view(self.diags@) + Seq::<DiagView>::empty() =~= diags_view(
                    self.diags@));
                }
                crate::ast::clone_expr(e)
            },
        }
    }

    /// Resolves a function call in place: attaches the declaration its name
    /// is bound to, then resolves the arguments; an unbound name that is not
    /// the built-in primitive is reported.
    pub fn visit_function_call(&mut self, function_call: &mut FunctionCall)
        ensures
            final(self).sym_table == old(self).sym_table,
            ({
                let out = spec_resolve_call((*old(function_call))@, old(self).sym_table@);
                &&& (*final(function_call))@ == out.call
                &&& diags_view(final(self).diags@) == diags_view(old(self).diags@) + out.diags
            }),
        decreases *old(function_call), 2int,
    {
        let r = self.resolve_call(function_call);
        *function_call = r;
    }

    #[verifier::loop_isolation(false)]
    fn resolve_call(&mut self, fc: &FunctionCall) -> (r: FunctionCall)
        ensures
            final(self).sym_table == old(self).sym_table,
            ({
                let out = spec_resolve_call(fc@, old(self).sym_table@);
                &&& r@ == out.call
                &&& diags_view(final(self).diags@) == diags_view(old(self).diags@) + out.diags
            }),
        decreases *fc, 1int,
    {
        let ghost d0 = self.diags@;
        let mut decl: Option<FunctionDecl> = None;
        let mut resolved = false;
        let symbol = self.sym_table.get_symbol(fc.name.as_str());
        match symbol {
            Some(s) => {
                match (s.kind, s.decl) {
                    (SymKind::Function, Decl::FunctionDecl(function_decl)) => {
                        decl = Some(function_decl);
                        resolved = true;
                    },
                    _ => {},
                }
            },
            None => {},
        }
        if !resolved {
            decl = match &fc.decl {
                Some(d0) => Some(clone_fndecl(d0)),
                None => None,
            };
            if !str_eq(fc.name.as_str(), "print") {
                let ghost prev = self.diags@;
                self.diags.push(Diagnostic::UnresolvedFunction(fc.name.clone()));
                proof {
                    lemma_diags_view_push(prev, Diagnostic::UnresolvedFunction(fc.name));
                }
            }
        }
        let ghost dmid = self.diags@;
        let mut parameters: Vec<Expression> = Vec::new();
        let mut i: usize = 0;
        proof {
            crate::ast::lemma_view_exprs_len(fc.parameters@);
            assert(view_exprs(fc.parameters@).skip(0) =~= view_exprs(fc.parameters@));
            assert(view_exprs(parameters@) =~= Seq::<ExprView>::empty());
        }
        while i < fc.parameters.len()
            invariant
                i <= fc.parameters@.len(),
                view_exprs(fc.parameters@).len() == fc.parameters@.len(),
                self.sym_table == old(self).sym_table,
                ({
                    let argsv = view_exprs(fc.parameters@);
                    let full = spec_resolve_exprs(argsv, old(self).sym_table@);
                    let cur = spec_resolve_exprs(argsv.skip(i as int), old(self).sym_table@);
                    &&& full.exprs == view_exprs(parameters@) + cur.exprs
                    &&& diags_view(dmid) + full.diags == diags_view(self.diags@) + cur.diags
                }),
            decreases fc.parameters@.len() - i,
        {
            let ghost argsv = view_exprs(fc.parameters@);
            let ghost rem = argsv.skip(i as int);
            let ghost prev_params = parameters@;
            let ghost prev_diags = self.diags@;
            proof {
                crate::ast::lemma_view_exprs_index(fc.parameters@, i as int);
                assert(rem[0] == argsv[i as int]);
                assert(rem.drop_first() =~= argsv.skip(i + 1 as int));
            }
            let r = self.resolve_expr(&fc.parameters[i]);
            parameters.push(r);
            proof {
                lemma_view_exprs_push(prev_params, parameters@.last());
                let step = spec_resolve_expr(rem[0], old(self).sym_table@);
                let cur2 = spec_resolve_exprs(argsv.skip(i + 1 as int), old(self).sym_table@);
                assert(view_exprs(prev_params) + (seq![step.expr] + cur2.exprs) =~= view_exprs(
                parameters@) + cur2.exprs);
                assert((diags_view(prev_diags) + step.diags) + cur2.diags =~= diags_view(
                prev_diags) + (step.diags + cur2.diags));
            }
            i += 1;
        }
        proof {
            let argsv = view_exprs(fc.parameters@);
            assert(argsv.skip(argsv.len() as int) =~= Seq::<ExprView>::empty());
            assert(view_exprs(parameters@) + Seq::<ExprView>::empty() =~= view_exprs(parameters@));
            assert(diags_view(self.diags@) + Seq::<DiagView>::empty() =~= diags_view(self.diags@));
            let args = spec_resolve_exprs(argsv, old(self).sym_table@);
            if !(old(self).sym_table@.contains_key(fc.name@) && old(self).sym_table@[fc.name@].kind
                is Function && old(self).sym_table@[fc.name@].decl is FunctionDecl) && !(fc.name@
                == builtin_print()) {
                assert((diags_view(d0) + seq![DiagView::UnresolvedFunction(fc.name@)]) + args.diags
                    =~= diags_view(d0) + (seq![DiagView::UnresolvedFunction(fc.name@)]
                    + args.diags));
            }
        }
        FunctionCall::new(fc.name.clone(), parameters, decl)
    }

    /// Resolves a variable reference in place: attaches the declaration its
    /// name is bound to; an unbound name that is not the built-in primitive
    /// is reported.
    pub fn visit_variable(&mut self, variable: &mut Variable)
        ensures
            final(self).sym_table == old(self).sym_table,
            ({
                let out = spec_resolve_var_node((*old(variable))@, old(self).sym_table@);
                &&& (*final(variable))@ == out.var
                &&& diags_view(final(self).diags@) == diags_view(old(self).diags@) + out.diags
            }),
    {
        let ghost d0 = self.diags@;
        let mut resolved = false;
        let symbol = self.sym_table.get_symbol(variable.name.as_str());
        match symbol {
            Some(s) => {
                match (s.kind, s.decl) {
                    (SymKind::Variable, Decl::VariableDecl(variable_decl)) => {
                        variable.decl = Some(variable_decl);
                        resolved = true;
                    },
                    _ => {},
                }
            },
            None => {},
        }
        if !resolved {
            if !str_eq(variable.name.as_str(), "print") {
                let ghost prev = self.diags@;
                self.diags.push(Diagnostic::UnresolvedVariable(variable.name.clone()));
                proof {
                    lemma_diags_view_push(prev, Diagnostic::UnresolvedVariable(variable.name));
                    assert(diags_view(self.diags@) =~= diags_view(d0) + seq![
                        DiagView::UnresolvedVariable(variable.name@),
                    ]);
                }
            } else {
                proof {
                    assert(diags_view(self.diags@) + Seq::<DiagView>::empty() =~= diags_view(
                    self.diags@));
                }
            }
        } else {
            proof {
                assert(diags_view(self.diags@) + Seq::<DiagView>::empty() =~= diags_view(
                self.diags@));
            }
        }
    }
}

} // verus!
