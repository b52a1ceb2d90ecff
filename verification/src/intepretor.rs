//! The tree-walking evaluator. It executes the top-level statements of a
//! resolved program against one flat name-to-value environment, collects
//! every line the built-in print primitive emits, and stops with a runtime
//! error where a call is unresolved, a variable is read before it is bound,
//! or values would have to be combined — the operations the language does
//! not define yet.

use vstd::prelude::*;

use crate::ast::Block;
use crate::ast::ExprView;
use crate::ast::Expression;
use crate::ast::FunctionCall;
use crate::ast::FunctionCallView;
use crate::ast::Prog;
use crate::ast::Statement;
use crate::ast::StmtView;
use crate::ast::VariableDecl;
use crate::ast::view_exprs;
use crate::ast::view_stmts;
use crate::text::str_eq;

verus! {

/// A runtime value: the language stores every variable in one tagged box.
/// Numeric values keep their literal spelling; no arithmetic is defined yet.
#[derive(Debug)]
pub enum Value {
    Null,
    Boolean(bool),
    Integer(String),
    Decimal(String),
    Text(String),
}

/// Model of a [`Value`].
#[verifier::ext_equal]
pub enum ValueView {
    Null,
    Boolean(bool),
    Integer(Seq<char>),
    Decimal(Seq<char>),
    Text(Seq<char>),
}

impl View for Value {
    type V = ValueView;

    open spec fn view(&self) -> ValueView {
        match self {
            Value::Null => ValueView::Null,
            Value::Boolean(b) => ValueView::Boolean(*b),
            Value::Integer(s) => ValueView::Integer(s@),
            Value::Decimal(s) => ValueView::Decimal(s@),
            Value::Text(s) => ValueView::Text(s@),
        }
    }
}

/// Clones a value; the clone has the same view.
pub fn clone_value(v: &Value) -> (r: Value)
    ensures
        r@ == v@,
{
    match v {
        Value::Null => Value::Null,
        Value::Boolean(b) => Value::Boolean(*b),
        Value::Integer(s) => Value::Integer(s.clone()),
        Value::Decimal(s) => Value::Decimal(s.clone()),
        Value::Text(s) => Value::Text(s.clone()),
    }
}

/// The one fatal condition class of the evaluator.
#[derive(Debug)]
pub enum RuntimeError {
    /// A call whose name has no attached declaration and is no built-in.
    FunctionNotFound(String),
    /// A variable read before any declaration bound it.
    UndefinedVariable(String),
    /// A binary operator applied to values; no such operation is defined.
    UnsupportedOperation(String),
}

/// Model of a [`RuntimeError`].
#[verifier::ext_equal]
pub enum RuntimeErrorView {
    FunctionNotFound(Seq<char>),
    UndefinedVariable(Seq<char>),
    UnsupportedOperation(Seq<char>),
}

impl View for RuntimeError {
    type V = RuntimeErrorView;

    open spec fn view(&self) -> RuntimeErrorView {
        match self {
            RuntimeError::FunctionNotFound(s) => RuntimeErrorView::FunctionNotFound(s@),
            RuntimeError::UndefinedVariable(s) => RuntimeErrorView::UndefinedVariable(s@),
            RuntimeError::UnsupportedOperation(s) => RuntimeErrorView::UnsupportedOperation(s@),
        }
    }
}

/// One binding of the environment.
#[derive(Debug)]
pub struct EnvEntry {
    pub name: String,
    pub value: Value,
}

/// The name-to-value mapping an entry sequence denotes: later entries win.
pub open spec fn env_map(s: Seq<EnvEntry>) -> Map<Seq<char>, ValueView>
    decreases s.len(),
{
    if s.len() == 0 {
        Map::empty()
    } else {
        env_map(s.drop_last()).insert(s.last().name@, s.last().value@)
    }
}

pub proof fn lemma_env_map_push(s: Seq<EnvEntry>, x: EnvEntry)
    ensures
        env_map(s.push(x)) == env_map(s).insert(x.name@, x.value@),
{
    assert(s.push(x).drop_last() =~= s);
    assert(s.push(x).last() == x);
}

pub proof fn lemma_env_map_contains(s: Seq<EnvEntry>, k: Seq<char>)
    ensures
        env_map(s).contains_key(k) <==> exists|i: int| 0 <= i < s.len() && s[i].name@ == k,
    decreases s.len(),
{
    if s.len() > 0 {
        lemma_env_map_contains(s.drop_last(), k);
        if s.last().name@ == k {
            assert(s[s.len() - 1].name@ == k);
        } else {
            if env_map(s).contains_key(k) {
                let i = choose|i: int| 0 <= i < s.drop_last().len() && s.drop_last()[i].name@ == k;
                assert(s[i].name@ == k);
            }
            if exists|i: int| 0 <= i < s.len() && s[i].name@ == k {
                let i = choose|i: int| 0 <= i < s.len() && s[i].name@ == k;
                assert(s.drop_last()[i].name@ == k);
            }
        }
    }
}

pub proof fn lemma_env_map_get(s: Seq<EnvEntry>, k: Seq<char>, i: int)
    requires
        0 <= i < s.len(),
        s[i].name@ == k,
        forall|j: int| i < j < s.len() ==> s[j].name@ != k,
    ensures
        env_map(s).contains_key(k),
        env_map(s)[k] == s[i].value@,
    decreases s.len(),
{
    if i == s.len() - 1 {
    } else {
        assert(s.last().name@ != k);
        assert(s.drop_last()[i].name@ == k);
        lemma_env_map_get(s.drop_last(), k, i);
    }
}

/// The views of the output lines, in order.
pub open spec fn lines_view(v: Seq<String>) -> Seq<Seq<char>> {
    v.map_values(|s: String| s@)
}

pub proof fn lemma_lines_view_push(v: Seq<String>, s: String)
    ensures
        lines_view(v.push(s)) == lines_view(v).push(s@),
{
    assert(lines_view(v.push(s)) =~= lines_view(v).push(s@));
}

/// The views of evaluated values, in order.
pub open spec fn vals_view(v: Seq<Value>) -> Seq<ValueView> {
    v.map_values(|x: Value| x@)
}

pub proof fn lemma_vals_view_push(v: Seq<Value>, x: Value)
    ensures
        vals_view(v.push(x)) == vals_view(v).push(x@),
{
    assert(vals_view(v.push(x)) =~= vals_view(v).push(x@));
}

// ---------------------------------------------------------------------------
// Textual representations
// ---------------------------------------------------------------------------

/// The textual representation a single printed value emits.
pub open spec fn text_of(v: ValueView) -> Seq<char> {
    match v {
        ValueView::Null => "null"@,
        ValueView::Boolean(b) => if b {
            "true"@
        } else {
            "false"@
        },
        ValueView::Integer(s) => s,
        ValueView::Decimal(s) => s,
        ValueView::Text(s) => s,
    }
}

/// The representation a value gets inside a listing: text values quoted,
/// everything else as its textual representation.
pub open spec fn debug_of(v: ValueView) -> Seq<char> {
    match v {
        ValueView::Text(s) => "\""@ + s + "\""@,
        _ => text_of(v),
    }
}

/// The comma-separated items of a listing.
pub open spec fn listing_items(vs: Seq<ValueView>) -> Seq<char>
    decreases vs.len(),
{
    if vs.len() == 0 {
        Seq::empty()
    } else if vs.len() == 1 {
        debug_of(vs[0])
    } else {
        debug_of(vs[0]) + ", "@ + listing_items(vs.drop_first())
    }
}

/// Appending a value to a listing appends a separator and its debug form.
pub proof fn lemma_listing_push(vs: Seq<ValueView>, x: ValueView)
    ensures
        vs.len() == 0 ==> listing_items(vs.push(x)) == debug_of(x),
        vs.len() > 0 ==> listing_items(vs.push(x)) == listing_items(vs) + ", "@ + debug_of(x),
    decreases vs.len(),
{
    if vs.len() == 0 {
        assert(vs.push(x)[0] == x);
    } else {
        assert(vs.push(x).drop_first() =~= vs.drop_first().push(x));
        assert(vs.push(x)[0] == vs[0]);
        lemma_listing_push(vs.drop_first(), x);
        if vs.len() == 1 {
            assert(listing_items(vs.push(x)) == debug_of(vs[0]) + ", "@ + debug_of(x));
        } else {
            assert(listing_items(vs.push(x)) == debug_of(vs[0]) + ", "@ + (listing_items(
                vs.drop_first(),
            ) + ", "@ + debug_of(x)));
            assert(debug_of(vs[0]) + ", "@ + (listing_items(vs.drop_first()) + ", "@ + debug_of(
                x,
            )) =~= (debug_of(vs[0]) + ", "@ + listing_items(vs.drop_first())) + ", "@ + debug_of(
                x,
            ));
        }
    }
}

/// The one line a print call emits: an empty line for no arguments, the
/// textual representation of a single argument, and a bracketed listing of
/// several arguments.
pub open spec fn print_line(vs: Seq<ValueView>) -> Seq<char> {
    if vs.len() == 0 {
        Seq::empty()
    } else if vs.len() == 1 {
        text_of(vs[0])
    } else {
        "["@ + listing_items(vs) + "]"@
    }
}

// ---------------------------------------------------------------------------
// The specification-level evaluator
// ---------------------------------------------------------------------------

/// Result of evaluating an expression: the environment and output after it,
/// and its value or the error that stopped evaluation.
#[verifier::ext_equal]
pub struct EvalExprOut {
    pub env: Map<Seq<char>, ValueView>,
    pub output: Seq<Seq<char>>,
    pub result: Result<ValueView, RuntimeErrorView>,
}

#[verifier::ext_equal]
pub struct EvalArgsOut {
    pub env: Map<Seq<char>, ValueView>,
    pub output: Seq<Seq<char>>,
    pub result: Result<Seq<ValueView>, RuntimeErrorView>,
}

/// Result of executing statements or a call: the environment and output
/// after them, and the error that stopped execution, if any.
#[verifier::ext_equal]
pub struct ExecOut {
    pub env: Map<Seq<char>, ValueView>,
    pub output: Seq<Seq<char>>,
    pub err: Option<RuntimeErrorView>,
}

pub open spec fn spec_eval_expr(e: ExprView, env: Map<Seq<char>, ValueView>) -> EvalExprOut
    decreases e, 2int,
{
    match e {
        ExprView::NullLiteral => EvalExprOut {
            env,
            output: Seq::empty(),
            result: Ok(ValueView::Null),
        },
        ExprView::BooleanLiteral(s) => EvalExprOut {
            env,
            output: Seq::empty(),
            result: Ok(ValueView::Boolean(s == "true"@)),
        },
        ExprView::IntegerLiteral(s) => EvalExprOut {
            env,
            output: Seq::empty(),
            result: Ok(ValueView::Integer(s)),
        },
        ExprView::DecimalLiteral(s) => EvalExprOut {
            env,
            output: Seq::empty(),
            result: Ok(ValueView::Decimal(s)),
        },
        ExprView::StringLiteral(s) => EvalExprOut {
            env,
            output: Seq::empty(),
            result: Ok(ValueView::Text(s)),
        },
        ExprView::Variable(v) => {
            if env.contains_key(v.name) {
                EvalExprOut { env, output: Seq::empty(), result: Ok(env[v.name]) }
            } else {
                EvalExprOut {
                    env,
                    output: Seq::empty(),
                    result: Err(RuntimeErrorView::UndefinedVariable(v.name)),
                }
            }
        },
        ExprView::FunctionCall(fc) => {
            let c = spec_exec_call(fc, env);
            EvalExprOut {
                env: c.env,
                output: c.output,
                result: match c.err {
                    Some(er) => Err(er),
                    None => Ok(ValueView::Null),
                },
            }
        },
        ExprView::Binary(b) => EvalExprOut {
            env,
            output: Seq::empty(),
            result: Err(RuntimeErrorView::UnsupportedOperation(b.op)),
        },
    }
}

pub open spec fn spec_eval_args(v: Seq<ExprView>, env: Map<Seq<char>, ValueView>) -> EvalArgsOut
    decreases v, 3int,
{
    if v.len() == 0 {
        EvalArgsOut { env, output: Seq::empty(), result: Ok(Seq::empty()) }
    } else {
        let first = spec_eval_expr(v[0], env);
        match first.result {
            Err(er) => EvalArgsOut { env: first.env, output: first.output, result: Err(er) },
            Ok(val) => {
                let rest = spec_eval_args(v.drop_first(), first.env);
                EvalArgsOut {
                    env: rest.env,
                    output: first.output + rest.output,
                    result: match rest.result {
                        Ok(vals) => Ok(seq![val] + vals),
                        Err(er) => Err(er),
                    },
                }
            },
        }
    }
}

/// Executing one call: the built-in print primitive formats its evaluated
/// arguments into one output line; a resolved call runs the attached
/// declaration's body; an unresolved call stops evaluation.
pub open spec fn spec_exec_call(fc: FunctionCallView, env: Map<Seq<char>, ValueView>) -> ExecOut
    decreases fc, 4int,
{
    if fc.name == "print"@ {
        let args = spec_eval_args(fc.parameters, env);
        match args.result {
            Ok(vals) => ExecOut {
                env: args.env,
                output: args.output.push(print_line(vals)),
                err: None,
            },
            Err(er) => ExecOut { env: args.env, output: args.output, err: Some(er) },
        }
    } else {
        match fc.decl {
            Some(d) => spec_exec_stmts(d.body, env),
            None => ExecOut {
                env,
                output: Seq::empty(),
                err: Some(RuntimeErrorView::FunctionNotFound(fc.name)),
            },
        }
    }
}

/// Executing one statement: a function-call statement runs the call, a
/// variable declaration binds its evaluated initializer (if any), and
/// everything else does nothing.
pub open spec fn spec_exec_stmt(st: StmtView, env: Map<Seq<char>, ValueView>) -> ExecOut
    decreases st, 5int,
{
    match st {
        StmtView::ExpressionStatement(e) => {
            match e {
                ExprView::FunctionCall(fc) => spec_exec_call(fc, env),
                _ => ExecOut { env, output: Seq::empty(), err: None },
            }
        },
        StmtView::VariableDecl(vd) => {
            match vd.init {
                Some(e) => {
                    let r = spec_eval_expr(*e, env);
                    match r.result {
                        Ok(val) => ExecOut {
                            env: r.env.insert(vd.name, val),
                            output: r.output,
                            err: None,
                        },
                        Err(er) => ExecOut { env: r.env, output: r.output, err: Some(er) },
                    }
                },
                None => ExecOut { env, output: Seq::empty(), err: None },
            }
        },
        StmtView::FunctionDecl(_) => ExecOut { env, output: Seq::empty(), err: None },
    }
}

/// Executing statements in order, stopping at the first error.
pub open spec fn spec_exec_stmts(v: Seq<StmtView>, env: Map<Seq<char>, ValueView>) -> ExecOut
    decreases v, 6int,
{
    if v.len() == 0 {
        ExecOut { env, output: Seq::empty(), err: None }
    } else {
        let first = spec_exec_stmt(v[0], env);
        match first.err {
            Some(er) => ExecOut { env: first.env, output: first.output, err: Some(er) },
            None => {
                let rest = spec_exec_stmts(v.drop_first(), first.env);
                ExecOut { env: rest.env, output: first.output + rest.output, err: rest.err }
            },
        }
    }
}

pub open spec fn res_unit_view(r: Result<(), RuntimeError>) -> Option<RuntimeErrorView> {
    match r {
        Ok(_) => None,
        Err(e) => Some(e@),
    }
}

pub open spec fn res_value_view(r: Result<Value, RuntimeError>) -> Result<
    ValueView,
    RuntimeErrorView,
> {
    match r {
        Ok(v) => Ok(v@),
        Err(e) => Err(e@),
    }
}

pub open spec fn res_values_view(r: Result<Vec<Value>, RuntimeError>) -> Result<
    Seq<ValueView>,
    RuntimeErrorView,
> {
    match r {
        Ok(v) => Ok(vals_view(v@)),
        Err(e) => Err(e@),
    }
}

} // verus!

verus! {

/// The evaluator: owns the environment and the output lines collected so
/// far. Each run starts from an empty environment.
pub struct Intepretor {
    pub values: Vec<EnvEntry>,
    pub output: Vec<String>,
}

impl Intepretor {
    /// The current name-to-value environment.
    pub open spec fn env(self) -> Map<Seq<char>, ValueView> {
        env_map(self.values@)
    }

    /// The output lines emitted so far.
    pub open spec fn out(self) -> Seq<Seq<char>> {
        lines_view(self.output@)
    }

    pub fn new() -> (r: Self)
        ensures
            r.env() == Map::<Seq<char>, ValueView>::empty(),
            r.out() =~= Seq::<Seq<char>>::empty(),
    {
        let r = Intepretor { values: Vec::new(), output: Vec::new() };
        proof {
            assert(r.values@.len() == 0);
            assert(r.out() =~= Seq::<Seq<char>>::empty());
        }
        r
    }

    /// Reads a variable; reading a name never bound stops evaluation.
    fn get_variable_value(&self, name: &str) -> (r: Result<Value, RuntimeError>)
        ensures
            self.env().contains_key(name@) ==> r is Ok && r->Ok_0@ == self.env()[name@],
            !self.env().contains_key(name@) ==> r is Err && r->Err_0@
                == RuntimeErrorView::UndefinedVariable(name@),
    {
        let mut i: usize = self.values.len();
        while i > 0
            invariant
                i <= self.values@.len(),
                forall|j: int| i <= j < self.values@.len() ==> self.values@[j].name@ != name@,
            decreases i,
        {
            i = i - 1;
            if str_eq(self.values[i].name.as_str(), name) {
                proof {
                    lemma_env_map_get(self.values@, name@, i as int);
                }
                return Ok(clone_value(&self.values[i].value));
            }
        }
        proof {
            lemma_env_map_contains(self.values@, name@);
        }
        Err(RuntimeError::UndefinedVariable(name.to_owned()))
    }

    /// Binds a variable, replacing any earlier binding.
    fn set_variable_value(&mut self, name: String, value: Value)
        ensures
            final(self).env() == old(self).env().insert(name@, value@),
            final(self).output == old(self).output,
    {
        let entry = EnvEntry { name, value };
        let ghost prev = self.values@;
        let ghost entryg = entry;
        self.values.push(entry);
        proof {
            lemma_env_map_push(prev, entryg);
        }
    }

    /// The textual representation of one value.
    fn value_text(&self, v: &Value) -> (s: String)
        ensures
            s@ == text_of(v@),
    {
        match v {
            Value::Null => String::from_str("null"),
            Value::Boolean(b) => {
                if *b {
                    String::from_str("true")
                } else {
                    String::from_str("false")
                }
            },
            Value::Integer(s) => s.clone(),
            Value::Decimal(s) => s.clone(),
            Value::Text(s) => s.clone(),
        }
    }

    /// The listing representation of one value: text values quoted.
    fn value_debug(&self, v: &Value) -> (s: String)
        ensures
            s@ == debug_of(v@),
    {
        match v {
            Value::Text(s) => {
                let mut r = String::from_str("\"");
                r.append(s.as_str());
                r.append("\"");
                r
            },
            _ => self.value_text(v),
        }
    }

    /// The one line a print call emits for these argument values.
    fn format_print(&self, vals: &Vec<Value>) -> (s: String)
        ensures
            s@ == print_line(vals_view(vals@)),
    {
        proof {
            crate::ast::lemma_view_stmts_len(Seq::<Statement>::empty());
            assert(vals_view(vals@).len() == vals@.len());
        }
        if vals.len() == 0 {
            let s = String::new();
            proof {
                assert(s@ =~= print_line(vals_view(vals@)));
            }
            return s;
        }
        if vals.len() == 1 {
            let s = self.value_text(&vals[0]);
            proof {
                assert(vals_view(vals@)[0] == vals@[0]@);
            }
            return s;
        }
        let mut r = String::from_str("[");
        let mut i: usize = 0;
        while i < vals.len()
            invariant
                vals_view(vals@).len() == vals@.len(),
                i <= vals@.len(),
                r@ == "["@ + listing_items(vals_view(vals@).take(i as int)),
            decreases vals@.len() - i,
        {
            if i > 0 {
                r.append(", ");
            }
            let d = self.value_debug(&vals[i]);
            r.append(d.as_str());
            proof {
                let vv = vals_view(vals@);
                assert(vv[i as int] == vals@[i as int]@);
                lemma_listing_push(vv.take(i as int), vv[i as int]);
                assert(vv.take(i + 1 as int) =~= vv.take(i as int).push(vv[i as int]));
                if i == 0 {
                    assert(r@ =~= "["@ + listing_items(vv.take(i + 1 as int)));
                } else {
                    assert(r@ =~= "["@ + (listing_items(vv.take(i as int)) + ", "@ + debug_of(
                        vv[i as int],
                    )));
                    assert(r@ =~= "["@ + listing_items(vv.take(i + 1 as int)));
                }
            }
            i += 1;
        }
        r.append("]");
        proof {
            let vv = vals_view(vals@);
            assert(vv.take(vv.len() as int) =~= vv);
            assert(r@ =~= "["@ + listing_items(vv) + "]"@);
        }
        r
    }

    /// Executes the top-level statements of the program in order, stopping
    /// at the first runtime error.
    pub fn visit(&mut self, prog: &Prog) -> (r: Result<(), RuntimeError>)
        ensures
            ({
                let out = spec_exec_stmts(prog@, old(self).env());
                &&& final(self).env() == out.env
                &&& final(self).out() == old(self).out() + out.output
                &&& res_unit_view(r) == out.err
            }),
    {
        self.run_stmts(&prog.stmts)
    }

    /// Executes a block (a function body) in the same flat environment.
    pub fn visit_block(&mut self, block: &Block) -> (r: Result<(), RuntimeError>)
        ensures
            ({
                let out = spec_exec_stmts(block@, old(self).env());
                &&& final(self).env() == out.env
                &&& final(self).out() == old(self).out() + out.output
                &&& res_unit_view(r) == out.err
            }),
        decreases *block, 7int,
    {
        self.run_stmts(&block.stmts)
    }

    #[verifier::loop_isolation(false)]
    fn run_stmts(&mut self, stmts: &Vec<Statement>) -> (r: Result<(), RuntimeError>)
        ensures
            ({
                let out = spec_exec_stmts(view_stmts(stmts@), old(self).env());
                &&& final(self).env() == out.env
                &&& final(self).out() == old(self).out() + out.output
                &&& res_unit_view(r) == out.err
            }),
        decreases *stmts, 6int,
    {
        let mut i: usize = 0;
        proof {
            crate::ast::lemma_view_stmts_len(stmts@);
            assert(view_stmts(stmts@).skip(0) =~= view_stmts(stmts@));
            assert(old(self).out() + Seq::<Seq<char>>::empty() =~= old(self).out());
        }
        while i < stmts.len()
            invariant
                i <= stmts@.len(),
                view_stmts(stmts@).len() == stmts@.len(),
                ({
                    let full = spec_exec_stmts(view_stmts(stmts@), old(self).env());
                    let cur = spec_exec_stmts(
                        view_stmts(stmts@).skip(i as int),
                        self.env(),
                    );
                    &&& full.env == cur.env
                    &&& full.err == cur.err
                    &&& old(self).out() + full.output == self.out() + cur.output
                }),
            decreases stmts@.len() - i,
        {
            let ghost sv = view_stmts(stmts@);
            let ghost rem = sv.skip(i as int);
            let ghost pre = *self;
            proof {
                crate::ast::lemma_view_stmts_index(stmts@, i as int);
                assert(rem[0] == sv[i as int]);
                assert(rem.drop_first() =~= sv.skip(i + 1 as int));
            }
            let r = self.exec_stmt(&stmts[i]);
            match r {
                Ok(_) => {
                    proof {
                        let step = spec_exec_stmt(rem[0], pre.env());
                        let cur2 = spec_exec_stmts(sv.skip(i + 1 as int), self.env());
                        assert((pre.out() + step.output) + cur2.output =~= pre.out() + (step.output
                            + cur2.output));
                    }
                },
                Err(e) => {
                    return Err(e);
                },
            }
            i += 1;
        }
        proof {
            let sv = view_stmts(stmts@);
            assert(sv.skip(sv.len() as int) =~= Seq::<StmtView>::empty());
            assert(self.out() + Seq::<Seq<char>>::empty() =~= self.out());
        }
        Ok(())
    }

    /// Executes one statement.
    fn exec_stmt(&mut self, st: &Statement) -> (r: Result<(), RuntimeError>)
        ensures
            ({
                let out = spec_exec_stmt(st@, old(self).env());
                &&& final(self).env() == out.env
                &&& final(self).out() == old(self).out() + out.output
                &&& res_unit_view(r) == out.err
            }),
        decreases *st, 5int,
    {
        match st {
            Statement::ExpressionStatement(es) => {
                match &es.exp {
                    Expression::FunctionCall(fc) => self.visit_function_call(fc),
                    _ => {
                        proof {
                            assert(old(self).out() + Seq::<Seq<char>>::empty() =~= old(
                                self,
                            ).out());
                        }
                        Ok(())
                    },
                }
            },
            Statement::VariableDecl(vd) => self.visit_variable_decl(vd),
            Statement::FunctionDecl(_) => {
                proof {
                    assert(old(self).out() + Seq::<Seq<char>>::empty() =~= old(self).out());
                }
                Ok(())
            },
        }
    }

    /// Executes a variable declaration: evaluates the initializer, if any,
    /// and binds the result; without one, the name stays unbound.
    fn visit_variable_decl(&mut self, variable_decl: &VariableDecl) -> (r: Result<
        (),
        RuntimeError,
    >)
        ensures
            ({
                let out = spec_exec_stmt(
                    StmtView::VariableDecl(variable_decl@),
                    old(self).env(),
                );
                &&& final(self).env() == out.env
                &&& final(self).out() == old(self).out() + out.output
                &&& res_unit_view(r) == out.err
            }),
        decreases *variable_decl, 5int,
    {
        match &variable_decl.init {
            Some(e) => {
                let v = self.eval_expr(e);
                match v {
                    Ok(val) => {
                        self.set_variable_value(variable_decl.name.clone(), val);
                        Ok(())
                    },
                    Err(er) => Err(er),
                }
            },
            None => {
                proof {
                    assert(old(self).out() + Seq::<Seq<char>>::empty() =~= old(self).out());
                }
                Ok(())
            },
        }
    }

    /// Runs one function call: the built-in print primitive formats its
    /// evaluated arguments into one output line; a call with an attached
    /// declaration executes that declaration's body; an unresolved call is
    /// the fatal condition of the evaluator.
    pub fn visit_function_call(&mut self, function_call: &FunctionCall) -> (r: Result<
        (),
        RuntimeError,
    >)
        ensures
            ({
                let out = spec_exec_call(function_call@, old(self).env());
                &&& final(self).env() == out.env
                &&& final(self).out() == old(self).out() + out.output
                &&& res_unit_view(r) == out.err
            }),
        decreases *function_call, 4int,
    {
        if str_eq(function_call.name.as_str(), "print") {
            let args = self.eval_args(&function_call.parameters);
            match args {
                Ok(vals) => {
                    let line = self.format_print(&vals);
                    let ghost pre_out = self.output@;
                    self.output.push(line);
                    proof {
                        lemma_lines_view_push(pre_out, self.output@.last());
                        let a = spec_eval_args(
                            view_exprs(function_call.parameters@),
                            old(self).env(),
                        );
                        assert(old(self).out() + a.output.push(print_line(a.result->Ok_0)) =~= (
                        old(self).out() + a.output).push(print_line(a.result->Ok_0)));
                    }
                    Ok(())
                },
                Err(er) => Err(er),
            }
        } else {
            match &function_call.decl {
                Some(d) => self.run_stmts(&d.body.stmts),
                None => {
                    proof {
                        assert(old(self).out() + Seq::<Seq<char>>::empty() =~= old(self).out());
                    }
                    Err(RuntimeError::FunctionNotFound(function_call.name.clone()))
                },
            }
        }
    }

    /// Evaluates one expression to a value.
    fn eval_expr(&mut self, e: &Expression) -> (r: Result<Value, RuntimeError>)
        ensures
            ({
                let out = spec_eval_expr(e@, old(self).env());
                &&& final(self).env() == out.env
                &&& final(self).out() == old(self).out() + out.output
                &&& res_value_view(r) == out.result
            }),
        decreases *e, 2int,
    {
        match e {
            Expression::NullLiteral => {
                proof {
                    assert(old(self).out() + Seq::<Seq<char>>::empty() =~= old(self).out());
                }
                Ok(Value::Null)
            },
            Expression::BooleanLiteral(l) => {
                proof {
                    assert(old(self).out() + Seq::<Seq<char>>::empty() =~= old(self).out());
                }
                Ok(Value::Boolean(str_eq(l.value.as_str(), "true")))
            },
            Expression::IntegerLiteral(l) => {
                proof {
                    assert(old(self).out() + Seq::<Seq<char>>::empty() =~= old(self).out());
                }
                Ok(Value::Integer(l.value.clone()))
            },
            Expression::DecimalLiteral(l) => {
                proof {
                    assert(old(self).out() + Seq::<Seq<char>>::empty() =~= old(self).out());
                }
                Ok(Value::Decimal(l.value.clone()))
            },
            Expression::StringLiteral(l) => {
                proof {
                    assert(old(self).out() + Seq::<Seq<char>>::empty() =~= old(self).out());
                }
                Ok(Value::Text(l.value.clone()))
            },
            Expression::Variable(v) => {
                proof {
                    assert(old(self).out() + Seq::<Seq<char>>::empty() =~= old(self).out());
                }
                self.get_variable_value(v.name.as_str())
            },
            Expression::FunctionCall(fc) => {
                let c = self.visit_function_call(fc);
                match c {
                    Ok(_) => Ok(Value::Null),
                    Err(er) => Err(er),
                }
            },
            Expression::Binary(b) => {
                proof {
                    assert(old(self).out() + Seq::<Seq<char>>::empty() =~= old(self).out());
                }
                Err(RuntimeError::UnsupportedOperation(b.op.clone()))
            },
        }
    }

    /// Evaluates call arguments left to right, stopping at the first error.
    #[verifier::loop_isolation(false)]
    fn eval_args(&mut self, v: &Vec<Expression>) -> (r: Result<Vec<Value>, RuntimeError>)
        ensures
            ({
                let out = spec_eval_args(view_exprs(v@), old(self).env());
                &&& final(self).env() == out.env
                &&& final(self).out() == old(self).out() + out.output
                &&& res_values_view(r) == out.result
            }),
        decreases *v, 3int,
    {
        let mut vals: Vec<Value> = Vec::new();
        let mut i: usize = 0;
        proof {
            crate::ast::lemma_view_exprs_len(v@);
            assert(view_exprs(v@).skip(0) =~= view_exprs(v@));
            assert(old(self).out() + Seq::<Seq<char>>::empty() =~= old(self).out());
            assert(vals_view(vals@) =~= Seq::<ValueView>::empty());
        }
        while i < v.len()
            invariant
                i <= v@.len(),
                view_exprs(v@).len() == v@.len(),
                vals@.len() == i,
                ({
                    let full = spec_eval_args(view_exprs(v@), old(self).env());
                    let cur = spec_eval_args(view_exprs(v@).skip(i as int), self.env());
                    &&& full.env == cur.env
                    &&& old(self).out() + full.output == self.out() + cur.output
                    &&& (cur.result is Ok ==> full.result is Ok && full.result->Ok_0 == vals_view(
                        vals@,
                    ) + cur.result->Ok_0)
                    &&& (cur.result is Err ==> full.result is Err && full.result->Err_0
                        == cur.result->Err_0)
                }),
            decreases v@.len() - i,
        {
            let ghost ev = view_exprs(v@);
            let ghost rem = ev.skip(i as int);
            let ghost pre = *self;
            let ghost prev_vals = vals@;
            proof {
                crate::ast::lemma_view_exprs_index(v@, i as int);
                assert(rem[0] == ev[i as int]);
                assert(rem.drop_first() =~= ev.skip(i + 1 as int));
            }
            let r = self.eval_expr(&v[i]);
            match r {
                Ok(val) => {
                    vals.push(val);
                    proof {
                        lemma_vals_view_push(prev_vals, vals@.last());
                        let step = spec_eval_expr(rem[0], pre.env());
                        let cur2 = spec_eval_args(ev.skip(i + 1 as int), self.env());
                        assert((pre.out() + step.output) + cur2.output =~= pre.out() + (step.output
                            + cur2.output));
                        if cur2.result is Ok {
                            assert(vals_view(prev_vals) + (seq![step.result->Ok_0]
                                + cur2.result->Ok_0) =~= vals_view(vals@) + cur2.result->Ok_0);
                        }
                    }
                },
                Err(er) => {
                    return Err(er);
                },
            }
            i += 1;
        }
        proof {
            let ev = view_exprs(v@);
            assert(ev.skip(ev.len() as int) =~= Seq::<ExprView>::empty());
            assert(self.out() + Seq::<Seq<char>>::empty() =~= self.out());
            assert(vals_view(vals@) + Seq::<ValueView>::empty() =~= vals_view(vals@));
        }
        Ok(vals)
    }
}

} // verus!
