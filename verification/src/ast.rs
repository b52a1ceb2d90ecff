//! The abstract syntax tree: a passive data model for programs, statements,
//! declarations and expressions, together with its mathematical model (the
//! `...View` types over `Seq<char>`) and verified deep-clone functions.

use vstd::prelude::*;

verus! {

// ---------------------------------------------------------------------------
// Executable data model
// ---------------------------------------------------------------------------

/// A top-level or body statement.
#[derive(Debug)]
pub enum Statement {
    FunctionDecl(FunctionDecl),
    VariableDecl(VariableDecl),
    ExpressionStatement(ExpressionStatement),
}

/// An expression.
#[derive(Debug)]
pub enum Expression {
    Binary(Binary),
    Variable(Variable),
    StringLiteral(StringLiteral),
    IntegerLiteral(IntegerLiteral),
    DecimalLiteral(DecimalLiteral),
    NullLiteral,
    BooleanLiteral(BooleanLiteral),
    FunctionCall(FunctionCall),
}

/// A declaration: what a symbol table entry points at.
#[derive(Debug)]
pub enum Decl {
    VariableDecl(VariableDecl),
    FunctionDecl(FunctionDecl),
}

/// The root of the AST: the ordered top-level statements of one program.
#[derive(Debug)]
pub struct Prog {
    pub stmts: Vec<Statement>,
}

/// A block: the ordered statements of a function body.
#[derive(Debug)]
pub struct Block {
    pub stmts: Vec<Statement>,
}

/// A variable declaration: name, declared type name (the `any` marker when
/// omitted) and optional initializer.
#[derive(Debug)]
pub struct VariableDecl {
    pub name: String,
    pub var_type: String,
    pub init: Option<Box<Expression>>,
}

/// A function declaration: name and body. Functions take no parameters.
#[derive(Debug)]
pub struct FunctionDecl {
    pub name: String,
    pub body: Block,
}

/// A function call: name, arguments, and the declaration the resolver
/// attached, absent until resolution (and absent for the built-in).
#[derive(Debug)]
pub struct FunctionCall {
    pub name: String,
    pub parameters: Vec<Expression>,
    pub decl: Option<FunctionDecl>,
}

/// A binary expression: operator text and both operands.
#[derive(Debug)]
pub struct Binary {
    pub op: String,
    pub exp1: Box<Expression>,
    pub exp2: Box<Expression>,
}

/// An expression used as a statement, terminated by a separator.
#[derive(Debug)]
pub struct ExpressionStatement {
    pub exp: Expression,
}

/// A variable reference: name, and the declaration the resolver attached.
#[derive(Debug)]
pub struct Variable {
    pub name: String,
    pub decl: Option<VariableDecl>,
}

#[derive(Debug)]
pub struct IntegerLiteral {
    pub value: String,
}

#[derive(Debug)]
pub struct DecimalLiteral {
    pub value: String,
}

#[derive(Debug)]
pub struct StringLiteral {
    pub value: String,
}

#[derive(Debug)]
pub struct BooleanLiteral {
    pub value: String,
}

// ---------------------------------------------------------------------------
// Mathematical model
// ---------------------------------------------------------------------------

/// Model of an [`Expression`].
#[verifier::ext_equal]
pub enum ExprView {
    Binary(BinaryView),
    Variable(VariableView),
    StringLiteral(Seq<char>),
    IntegerLiteral(Seq<char>),
    DecimalLiteral(Seq<char>),
    NullLiteral,
    BooleanLiteral(Seq<char>),
    FunctionCall(FunctionCallView),
}

#[verifier::ext_equal]
pub struct BinaryView {
    pub op: Seq<char>,
    pub exp1: Box<ExprView>,
    pub exp2: Box<ExprView>,
}

#[verifier::ext_equal]
pub struct VariableView {
    pub name: Seq<char>,
    pub decl: Option<VariableDeclView>,
}

#[verifier::ext_equal]
pub struct FunctionCallView {
    pub name: Seq<char>,
    pub parameters: Seq<ExprView>,
    pub decl: Option<FunctionDeclView>,
}

#[verifier::ext_equal]
pub struct VariableDeclView {
    pub name: Seq<char>,
    pub var_type: Seq<char>,
    pub init: Option<Box<ExprView>>,
}

#[verifier::ext_equal]
pub struct FunctionDeclView {
    pub name: Seq<char>,
    pub body: Seq<StmtView>,
}

/// Model of a [`Statement`].
#[verifier::ext_equal]
pub enum StmtView {
    FunctionDecl(FunctionDeclView),
    VariableDecl(VariableDeclView),
    ExpressionStatement(ExprView),
}

/// Model of a [`Decl`].
#[verifier::ext_equal]
pub enum DeclView {
    VariableDecl(VariableDeclView),
    FunctionDecl(FunctionDeclView),
}

pub open spec fn view_expr(e: Expression) -> ExprView
    decreases e,
{
    match e {
        Expression::Binary(b) => ExprView::Binary(
            BinaryView {
                op: b.op@,
                exp1: Box::new(view_expr(*b.exp1)),
                exp2: Box::new(view_expr(*b.exp2)),
            },
        ),
        Expression::Variable(v) => ExprView::Variable(
            VariableView {
                name: v.name@,
                decl: match v.decl {
                    Some(d) => Some(view_vardecl(d)),
                    None => None,
                },
            },
        ),
        Expression::StringLiteral(l) => ExprView::StringLiteral(l.value@),
        Expression::IntegerLiteral(l) => ExprView::IntegerLiteral(l.value@),
        Expression::DecimalLiteral(l) => ExprView::DecimalLiteral(l.value@),
        Expression::NullLiteral => ExprView::NullLiteral,
        Expression::BooleanLiteral(l) => ExprView::BooleanLiteral(l.value@),
        Expression::FunctionCall(fc) => ExprView::FunctionCall(view_call(fc)),
    }
}

pub open spec fn view_exprs(v: Seq<Expression>) -> Seq<ExprView>
    decreases v,
{
    if v.len() == 0 {
        Seq::empty()
    } else {
        seq![view_expr(v[0])] + view_exprs(v.drop_first())
    }
}

pub open spec fn view_call(fc: FunctionCall) -> FunctionCallView
    decreases fc,
{
    FunctionCallView {
        name: fc.name@,
        parameters: view_exprs(fc.parameters@),
        decl: match fc.decl {
            Some(d) => Some(view_fndecl(d)),
            None => None,
        },
    }
}

pub open spec fn view_vardecl(d: VariableDecl) -> VariableDeclView
    decreases d,
{
    VariableDeclView {
        name: d.name@,
        var_type: d.var_type@,
        init: match d.init {
            Some(e) => Some(Box::new(view_expr(*e))),
            None => None,
        },
    }
}

pub open spec fn view_fndecl(d: FunctionDecl) -> FunctionDeclView
    decreases d,
{
    FunctionDeclView { name: d.name@, body: view_stmts(d.body.stmts@) }
}

pub open spec fn view_stmt(s: Statement) -> StmtView
    decreases s,
{
    match s {
        Statement::FunctionDecl(d) => StmtView::FunctionDecl(view_fndecl(d)),
        Statement::VariableDecl(d) => StmtView::VariableDecl(view_vardecl(d)),
        Statement::ExpressionStatement(es) => StmtView::ExpressionStatement(view_expr(es.exp)),
    }
}

pub open spec fn view_stmts(v: Seq<Statement>) -> Seq<StmtView>
    decreases v,
{
    if v.len() == 0 {
        Seq::empty()
    } else {
        seq![view_stmt(v[0])] + view_stmts(v.drop_first())
    }
}

impl View for Expression {
    type V = ExprView;

    open spec fn view(&self) -> ExprView {
        view_expr(*self)
    }
}

impl View for Statement {
    type V = StmtView;

    open spec fn view(&self) -> StmtView {
        view_stmt(*self)
    }
}

impl View for Prog {
    type V = Seq<StmtView>;

    open spec fn view(&self) -> Seq<StmtView> {
        view_stmts(self.stmts@)
    }
}

impl View for Block {
    type V = Seq<StmtView>;

    open spec fn view(&self) -> Seq<StmtView> {
        view_stmts(self.stmts@)
    }
}

impl View for VariableDecl {
    type V = VariableDeclView;

    open spec fn view(&self) -> VariableDeclView {
        view_vardecl(*self)
    }
}

impl View for FunctionDecl {
    type V = FunctionDeclView;

    open spec fn view(&self) -> FunctionDeclView {
        view_fndecl(*self)
    }
}

impl View for Variable {
    type V = VariableView;

    open spec fn view(&self) -> VariableView {
        VariableView {
            name: self.name@,
            decl: match self.decl {
                Some(d) => Some(view_vardecl(d)),
                None => None,
            },
        }
    }
}

impl View for FunctionCall {
    type V = FunctionCallView;

    open spec fn view(&self) -> FunctionCallView {
        view_call(*self)
    }
}

impl View for ExpressionStatement {
    type V = ExprView;

    open spec fn view(&self) -> ExprView {
        view_expr(self.exp)
    }
}

impl View for Decl {
    type V = DeclView;

    open spec fn view(&self) -> DeclView {
        match self {
            Decl::VariableDecl(d) => DeclView::VariableDecl(view_vardecl(*d)),
            Decl::FunctionDecl(d) => DeclView::FunctionDecl(view_fndecl(*d)),
        }
    }
}

/// Appending an element appends its view.
pub proof fn lemma_view_exprs_push(v: Seq<Expression>, e: Expression)
    ensures
        view_exprs(v.push(e)) == view_exprs(v).push(view_expr(e)),
    decreases v,
{
    if v.len() == 0 {
        reveal_with_fuel(view_exprs, 2);
        assert(v.push(e).drop_first() =~= Seq::<Expression>::empty());
        assert(view_exprs(v.push(e)) =~= view_exprs(v).push(view_expr(e)));
    } else {
        assert(v.push(e).drop_first() =~= v.drop_first().push(e));
        assert(v.push(e)[0] == v[0]);
        assert(v.push(e).len() == v.len() + 1);
        lemma_view_exprs_push(v.drop_first(), e);
        assert(view_exprs(v.push(e)) == seq![view_expr(v[0])] + view_exprs(v.drop_first()).push(
            view_expr(e),
        ));
        assert(view_exprs(v.push(e)) =~= view_exprs(v).push(view_expr(e)));
    }
}

/// Appending a statement appends its view.
pub proof fn lemma_view_stmts_push(v: Seq<Statement>, s: Statement)
    ensures
        view_stmts(v.push(s)) == view_stmts(v).push(view_stmt(s)),
    decreases v,
{
    if v.len() == 0 {
        reveal_with_fuel(view_stmts, 2);
        assert(v.push(s).drop_first() =~= Seq::<Statement>::empty());
        assert(view_stmts(v.push(s)) =~= view_stmts(v).push(view_stmt(s)));
    } else {
        assert(v.push(s).drop_first() =~= v.drop_first().push(s));
        assert(v.push(s)[0] == v[0]);
        assert(v.push(s).len() == v.len() + 1);
        lemma_view_stmts_push(v.drop_first(), s);
        assert(view_stmts(v.push(s)) == seq![view_stmt(v[0])] + view_stmts(v.drop_first()).push(
            view_stmt(s),
        ));
        assert(view_stmts(v.push(s)) =~= view_stmts(v).push(view_stmt(s)));
    }
}

/// The view of a statement sequence indexes pointwise.
pub proof fn lemma_view_stmts_index(v: Seq<Statement>, i: int)
    requires
        0 <= i < v.len(),
    ensures
        view_stmts(v).len() == v.len(),
        view_stmts(v)[i] == view_stmt(v[i]),
    decreases v,
{
    lemma_view_stmts_len(v);
    if i > 0 {
        lemma_view_stmts_index(v.drop_first(), i - 1);
    }
}

pub proof fn lemma_view_stmts_len(v: Seq<Statement>)
    ensures
        view_stmts(v).len() == v.len(),
    decreases v,
{
    if v.len() > 0 {
        lemma_view_stmts_len(v.drop_first());
    }
}

pub proof fn lemma_view_exprs_index(v: Seq<Expression>, i: int)
    requires
        0 <= i < v.len(),
    ensures
        view_exprs(v).len() == v.len(),
        view_exprs(v)[i] == view_expr(v[i]),
    decreases v,
{
    lemma_view_exprs_len(v);
    if i > 0 {
        lemma_view_exprs_index(v.drop_first(), i - 1);
    }
}

pub proof fn lemma_view_exprs_len(v: Seq<Expression>)
    ensures
        view_exprs(v).len() == v.len(),
    decreases v,
{
    if v.len() > 0 {
        lemma_view_exprs_len(v.drop_first());
    }
}

// ---------------------------------------------------------------------------
// Constructors
// ---------------------------------------------------------------------------

impl Prog {
    pub fn new(stmts: Vec<Statement>) -> (r: Self)
        ensures
            r.stmts == stmts,
    {
        Self { stmts }
    }
}

impl Block {
    pub fn new(stmts: Vec<Statement>) -> (r: Self)
        ensures
            r.stmts == stmts,
    {
        Self { stmts }
    }
}

impl VariableDecl {
    pub fn new(name: String, var_type: String, init: Option<Box<Expression>>) -> (r: Self)
        ensures
            r.name == name,
            r.var_type == var_type,
            r.init == init,
    {
        Self { name, var_type, init }
    }
}

impl FunctionDecl {
    pub fn new(name: String, body: Block) -> (r: Self)
        ensures
            r.name == name,
            r.body == body,
    {
        Self { name, body }
    }
}

impl FunctionCall {
    pub fn new(name: String, parameters: Vec<Expression>, decl: Option<FunctionDecl>) -> (r: Self)
        ensures
            r.name == name,
            r.parameters == parameters,
            r.decl == decl,
    {
        Self { name, parameters, decl }
    }
}

impl Binary {
    pub fn new(op: String, exp1: Box<Expression>, exp2: Box<Expression>) -> (r: Self)
        ensures
            r.op == op,
            r.exp1 == exp1,
            r.exp2 == exp2,
    {
        Self { op, exp1, exp2 }
    }
}

impl ExpressionStatement {
    pub fn new(exp: Expression) -> (r: Self)
        ensures
            r.exp == exp,
    {
        Self { exp }
    }
}

impl Variable {
    pub fn new(name: String, decl: Option<VariableDecl>) -> (r: Self)
        ensures
            r.name == name,
            r.decl == decl,
    {
        Self { name, decl }
    }
}

impl IntegerLiteral {
    pub fn new(value: String) -> (r: Self)
        ensures
            r.value == value,
    {
        Self { value }
    }
}

impl DecimalLiteral {
    pub fn new(value: String) -> (r: Self)
        ensures
            r.value == value,
    {
        Self { value }
    }
}

impl StringLiteral {
    pub fn new(value: String) -> (r: Self)
        ensures
            r.value == value,
    {
        Self { value }
    }
}

impl BooleanLiteral {
    pub fn new(value: String) -> (r: Self)
        ensures
            r.value == value,
    {
        Self { value }
    }
}

// ---------------------------------------------------------------------------
// Verified deep clones
// ---------------------------------------------------------------------------

/// Clones an expression; the clone has the same view.
pub fn clone_expr(e: &Expression) -> (r: Expression)
    ensures
        r@ == e@,
    decreases *e,
{
    match e {
        Expression::Binary(b) => Expression::Binary(
            Binary {
                op: b.op.clone(),
                exp1: Box::new(clone_expr(&b.exp1)),
                exp2: Box::new(clone_expr(&b.exp2)),
            },
        ),
        Expression::Variable(v) => Expression::Variable(
            Variable {
                name: v.name.clone(),
                decl: match &v.decl {
                    Some(d) => Some(clone_vardecl(d)),
                    None => None,
                },
            },
        ),
        Expression::StringLiteral(l) => Expression::StringLiteral(
            StringLiteral { value: l.value.clone() },
        ),
        Expression::IntegerLiteral(l) => Expression::IntegerLiteral(
            IntegerLiteral { value: l.value.clone() },
        ),
        Expression::DecimalLiteral(l) => Expression::DecimalLiteral(
            DecimalLiteral { value: l.value.clone() },
        ),
        Expression::NullLiteral => Expression::NullLiteral,
        Expression::BooleanLiteral(l) => Expression::BooleanLiteral(
            BooleanLiteral { value: l.value.clone() },
        ),
        Expression::FunctionCall(fc) => Expression::FunctionCall(clone_call(fc)),
    }
}

/// Clones a function call; the clone has the same view.
pub fn clone_call(fc: &FunctionCall) -> (r: FunctionCall)
    ensures
        r@ == fc@,
    decreases *fc,
{
    let mut parameters: Vec<Expression> = Vec::new();
    let mut i: usize = 0;
    while i < fc.parameters.len()
        invariant
            i <= fc.parameters.len(),
            view_exprs(parameters@) == view_exprs(fc.parameters@.take(i as int)),
        decreases fc.parameters.len() - i,
    {
        let ghost prev = parameters@;
        parameters.push(clone_expr(&fc.parameters[i]));
        proof {
            lemma_view_exprs_push(prev, parameters@.last());
            lemma_view_exprs_push(fc.parameters@.take(i as int), fc.parameters@[i as int]);
            assert(fc.parameters@.take(i + 1 as int) =~= fc.parameters@.take(i as int).push(
                fc.parameters@[i as int],
            ));
        }
        i += 1;
    }
    proof {
        assert(fc.parameters@.take(fc.parameters@.len() as int) =~= fc.parameters@);
    }
    FunctionCall {
        name: fc.name.clone(),
        parameters,
        decl: match &fc.decl {
            Some(d) => Some(clone_fndecl(d)),
            None => None,
        },
    }
}

/// Clones a variable declaration; the clone has the same view.
pub fn clone_vardecl(d: &VariableDecl) -> (r: VariableDecl)
    ensures
        r@ == d@,
    decreases *d,
{
    VariableDecl {
        name: d.name.clone(),
        var_type: d.var_type.clone(),
        init: match &d.init {
            Some(e) => Some(Box::new(clone_expr(e))),
            None => None,
        },
    }
}

/// Clones a function declaration; the clone has the same view.
pub fn clone_fndecl(d: &FunctionDecl) -> (r: FunctionDecl)
    ensures
        r@ == d@,
    decreases *d,
{
    FunctionDecl { name: d.name.clone(), body: clone_block(&d.body) }
}

/// Clones a block; the clone has the same view.
pub fn clone_block(b: &Block) -> (r: Block)
    ensures
        r@ == b@,
    decreases *b,
{
    let mut stmts: Vec<Statement> = Vec::new();
    let mut i: usize = 0;
    while i < b.stmts.len()
        invariant
            i <= b.stmts.len(),
            view_stmts(stmts@) == view_stmts(b.stmts@.take(i as int)),
        decreases b.stmts.len() - i,
    {
        let ghost prev = stmts@;
        stmts.push(clone_stmt(&b.stmts[i]));
        proof {
            lemma_view_stmts_push(prev, stmts@.last());
            lemma_view_stmts_push(b.stmts@.take(i as int), b.stmts@[i as int]);
            assert(b.stmts@.take(i + 1 as int) =~= b.stmts@.take(i as int).push(
                b.stmts@[i as int],
            ));
        }
        i += 1;
    }
    proof {
        assert(b.stmts@.take(b.stmts@.len() as int) =~= b.stmts@);
    }
    Block { stmts }
}

/// Clones a statement; the clone has the same view.
pub fn clone_stmt(s: &Statement) -> (r: Statement)
    ensures
        r@ == s@,
    decreases *s,
{
    match s {
        Statement::FunctionDecl(d) => Statement::FunctionDecl(clone_fndecl(d)),
        Statement::VariableDecl(d) => Statement::VariableDecl(clone_vardecl(d)),
        Statement::ExpressionStatement(es) => Statement::ExpressionStatement(
            ExpressionStatement { exp: clone_expr(&es.exp) },
        ),
    }
}

/// Clones a declaration; the clone has the same view.
pub fn clone_decl(d: &Decl) -> (r: Decl)
    ensures
        r@ == d@,
{
    match d {
        Decl::VariableDecl(v) => Decl::VariableDecl(clone_vardecl(v)),
        Decl::FunctionDecl(f) => Decl::FunctionDecl(clone_fndecl(f)),
    }
}

} // verus!
