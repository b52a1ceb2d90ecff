//! Re-serialization of an AST into a token stream, and the round-trip law:
//! re-parsing the serialized tokens of a declaration-free program yields a
//! structurally identical AST.
//!
//! Serialization is structural, not textual: every binary node is emitted
//! inside parentheses, so the token stream fixes the tree shape regardless
//! of operator precedence. Two further positions are parenthesized because
//! the parser reads token text there: a first call argument whose first
//! token reads like `)`, and a statement expression that is the bare null
//! literal or whose first token reads like `}`.

use vstd::prelude::*;

use crate::ast::ExprView;
use crate::ast::Expression;
use crate::ast::FunctionCallView;
use crate::ast::Prog;
use crate::ast::Statement;
use crate::ast::StmtView;
use crate::ast::view_exprs;
use crate::ast::view_stmts;
use crate::parser::Parsed;
use crate::parser::op_prec;
use crate::parser::peek_tv;
use crate::parser::tok_adv;
use crate::parser::spec_parse_prog;
use crate::parser::spec_parse_statement_list;
use crate::parser::spec_parse_statement;
use crate::parser::spec_parse_expression_statement;
use crate::parser::spec_parse_expression;
use crate::parser::spec_parse_binary;
use crate::parser::spec_binary_tail;
use crate::parser::spec_parse_primary;
use crate::parser::spec_parse_function_call;
use crate::parser::spec_parse_call_args;
use crate::parser::lemma_sep_lits;
use crate::parser::lemma_op_lits;
use crate::parser::lemma_prec_of_seps;
use crate::scanner::Token;
use crate::scanner::TokenView;
use crate::scanner::tv_text;

verus! {

// ---------------------------------------------------------------------------
// Specification-level serialization
// ---------------------------------------------------------------------------

/// The token stream of one expression; binary nodes are parenthesized.
pub open spec fn ser_expr(e: ExprView) -> Seq<TokenView>
    decreases e, 1int,
{
    match e {
        ExprView::IntegerLiteral(s) => seq![TokenView::IntegerLiteral(s)],
        ExprView::DecimalLiteral(s) => seq![TokenView::DecimalLiteral(s)],
        ExprView::StringLiteral(s) => seq![TokenView::StringLiteral(s)],
        ExprView::BooleanLiteral(s) => seq![TokenView::BooleanLiteral(s)],
        ExprView::NullLiteral => seq![TokenView::NullLiteral],
        ExprView::Variable(v) => seq![TokenView::Identifier(v.name)],
        ExprView::FunctionCall(fc) => seq![
            TokenView::Identifier(fc.name),
            TokenView::Seperator("("@),
        ] + ser_args(fc.parameters) + seq![TokenView::Seperator(")"@)],
        ExprView::Binary(b) => seq![TokenView::Seperator("("@)] + ser_expr(*b.exp1) + seq![
            TokenView::Operator(b.op),
        ] + ser_expr(*b.exp2) + seq![TokenView::Seperator(")"@)],
    }
}

/// The token stream of an argument list, comma-separated. The first
/// argument is emitted by [`ser_arg0`]; the later ones follow a comma and
/// are parsed unconditionally, so they need no care.
pub open spec fn ser_args(v: Seq<ExprView>) -> Seq<TokenView>
    decreases v, 3int,
{
    if v.len() == 0 {
        Seq::empty()
    } else {
        ser_arg0(v[0]) + ser_args_tail(v.drop_first())
    }
}

/// The token stream of every argument after the first, each after a comma.
pub open spec fn ser_args_tail(v: Seq<ExprView>) -> Seq<TokenView>
    decreases v, 0int,
{
    if v.len() == 0 {
        Seq::empty()
    } else {
        seq![TokenView::Seperator(","@)] + ser_expr(v[0]) + ser_args_tail(v.drop_first())
    }
}

/// The token stream of a first call argument. The argument-list scan tests
/// the text of the token after `(` against `)`, so an argument whose first
/// token reads like `)` is parenthesized; parentheses leave no mark in the
/// AST, so the re-parse is unchanged.
pub open spec fn ser_arg0(e: ExprView) -> Seq<TokenView>
    decreases e, 2int,
{
    if tv_text(first_ser_tok(e)) == ")"@ {
        seq![TokenView::Seperator("("@)] + ser_expr(e) + seq![TokenView::Seperator(")"@)]
    } else {
        ser_expr(e)
    }
}

/// The token stream of one statement.
pub open spec fn ser_stmt(st: StmtView) -> Seq<TokenView>
    decreases st, 1int,
{
    match st {
        StmtView::ExpressionStatement(e) => ser_stmt_expr(e) + seq![TokenView::Seperator(";"@)],
        StmtView::VariableDecl(vd) => seq![
            TokenView::Keyword("let"@),
            TokenView::Identifier(vd.name),
            TokenView::Seperator(":"@),
            TokenView::Identifier(vd.var_type),
        ] + (match vd.init {
            Some(e) => seq![TokenView::Operator("="@)] + ser_expr(*e),
            None => Seq::empty(),
        }) + seq![TokenView::Seperator(";"@)],
        StmtView::FunctionDecl(fd) => seq![
            TokenView::Keyword("fn"@),
            TokenView::Identifier(fd.name),
            TokenView::Seperator("("@),
            TokenView::Seperator(")"@),
            TokenView::Seperator("{"@),
        ] + ser_stmts(fd.body) + seq![TokenView::Seperator("}"@)],
    }
}

/// The token stream of a statement expression. The statement-list loop
/// reads the first token's text: the bare null literal starts no statement,
/// and a token reading like `}` ends the list, so both are parenthesized;
/// parentheses leave no mark in the AST, so the re-parse is unchanged.
pub open spec fn ser_stmt_expr(e: ExprView) -> Seq<TokenView>
    decreases e, 2int,
{
    if e is NullLiteral || tv_text(first_ser_tok(e)) == "}"@ {
        seq![TokenView::Seperator("("@)] + ser_expr(e) + seq![TokenView::Seperator(")"@)]
    } else {
        ser_expr(e)
    }
}

/// The token stream of a statement sequence.
pub open spec fn ser_stmts(v: Seq<StmtView>) -> Seq<TokenView>
    decreases v, 0int,
{
    if v.len() == 0 {
        Seq::empty()
    } else {
        ser_stmt(v[0]) + ser_stmts(v.drop_first())
    }
}

/// The first token an expression serializes to.
pub open spec fn first_ser_tok(e: ExprView) -> TokenView {
    match e {
        ExprView::IntegerLiteral(s) => TokenView::IntegerLiteral(s),
        ExprView::DecimalLiteral(s) => TokenView::DecimalLiteral(s),
        ExprView::StringLiteral(s) => TokenView::StringLiteral(s),
        ExprView::BooleanLiteral(s) => TokenView::BooleanLiteral(s),
        ExprView::NullLiteral => TokenView::NullLiteral,
        ExprView::Variable(v) => TokenView::Identifier(v.name),
        ExprView::FunctionCall(fc) => TokenView::Identifier(fc.name),
        ExprView::Binary(_) => TokenView::Seperator("("@),
    }
}

// ---------------------------------------------------------------------------
// What re-parses faithfully
// ---------------------------------------------------------------------------

/// An expression whose serialized tokens re-parse to the same tree: still
/// unresolved, and every operator in the precedence table. Both hold of
/// every expression the parser builds: references are attached only later,
/// and a binary node is only folded around an operator that outranked the
/// threshold.
pub open spec fn wf_expr(e: ExprView) -> bool
    decreases e, 1int,
{
    match e {
        ExprView::Binary(b) => op_prec(b.op) > 0 && wf_expr(*b.exp1) && wf_expr(*b.exp2),
        ExprView::Variable(v) => v.decl is None,
        ExprView::FunctionCall(fc) => fc.decl is None && wf_args(fc.parameters),
        _ => true,
    }
}

pub open spec fn wf_args(v: Seq<ExprView>) -> bool
    decreases v, 0int,
{
    if v.len() == 0 {
        true
    } else {
        wf_expr(v[0]) && wf_args(v.drop_first())
    }
}

/// A declaration-free statement that re-parses faithfully: an expression
/// statement over a well-formed expression.
pub open spec fn wf_stmt(st: StmtView) -> bool {
    match st {
        StmtView::ExpressionStatement(e) => wf_expr(e),
        _ => false,
    }
}

/// A declaration-free program that re-parses faithfully.
pub open spec fn wf_prog(v: Seq<StmtView>) -> bool {
    forall|i: int| 0 <= i < v.len() ==> wf_stmt(#[trigger] v[i])
}

} // verus!

verus! {

// ---------------------------------------------------------------------------
// The round-trip law
// ---------------------------------------------------------------------------

proof fn lemma_ser_expr_len(e: ExprView)
    ensures
        ser_expr(e).len() >= 1,
        ser_expr(e)[0] == first_ser_tok(e),
{
    match e {
        ExprView::FunctionCall(fc) => {
            assert(ser_expr(e)[0] == first_ser_tok(e));
        },
        ExprView::Binary(b) => {
            assert(ser_expr(e)[0] == first_ser_tok(e));
        },
        _ => {},
    }
}

proof fn lemma_concat_first(a: Seq<TokenView>, b: Seq<TokenView>)
    requires
        a.len() > 0,
    ensures
        peek_tv(a + b, 0) == a[0],
        tok_adv(a + b, 1) == a.drop_first() + b,
{
    assert((a + b)[0] == a[0]);
    assert(tok_adv(a + b, 1) =~= a.drop_first() + b);
}

proof fn lemma_empty_diags2()
    ensures
        Seq::<crate::diagnostics::DiagView>::empty() + Seq::<
            crate::diagnostics::DiagView,
        >::empty() == Seq::<crate::diagnostics::DiagView>::empty(),
{
    assert(Seq::<crate::diagnostics::DiagView>::empty() + Seq::<
        crate::diagnostics::DiagView,
    >::empty() =~= Seq::<crate::diagnostics::DiagView>::empty());
}

/// A serialized well-formed expression re-parses as one primary whenever
/// what follows does not read like an opening parenthesis.
#[verifier::rlimit(100)]
proof fn lemma_reparse_primary(e: ExprView, rest: Seq<TokenView>)
    requires
        wf_expr(e),
        tv_text(peek_tv(rest, 0)) != "("@,
    ensures
        spec_parse_primary(ser_expr(e) + rest) == (Parsed {
            val: Some(e),
            rest,
            diags: Seq::<crate::diagnostics::DiagView>::empty(),
        }),
    decreases e, 3int,
{
    lemma_sep_lits();
    lemma_op_lits();
    lemma_prec_of_seps();
    lemma_ser_expr_len(e);
    let toks = ser_expr(e) + rest;
    lemma_concat_first(ser_expr(e), rest);
    match e {
        ExprView::IntegerLiteral(s) => {
            assert(tok_adv(toks, 1) =~= rest);
            assert(spec_parse_primary(toks) =~= (Parsed {
                val: Some(e),
                rest,
                diags: Seq::<crate::diagnostics::DiagView>::empty(),
            }));
        },
        ExprView::DecimalLiteral(s) => {
            assert(tok_adv(toks, 1) =~= rest);
            assert(spec_parse_primary(toks) =~= (Parsed {
                val: Some(e),
                rest,
                diags: Seq::<crate::diagnostics::DiagView>::empty(),
            }));
        },
        ExprView::StringLiteral(s) => {
            assert(tok_adv(toks, 1) =~= rest);
            assert(spec_parse_primary(toks) =~= (Parsed {
                val: Some(e),
                rest,
                diags: Seq::<crate::diagnostics::DiagView>::empty(),
            }));
        },
        ExprView::BooleanLiteral(s) => {
            assert(tok_adv(toks, 1) =~= rest);
            assert(spec_parse_primary(toks) =~= (Parsed {
                val: Some(e),
                rest,
                diags: Seq::<crate::diagnostics::DiagView>::empty(),
            }));
        },
        ExprView::NullLiteral => {
            assert(tok_adv(toks, 1) =~= rest);
            assert(spec_parse_primary(toks) =~= (Parsed {
                val: Some(e),
                rest,
                diags: Seq::<crate::diagnostics::DiagView>::empty(),
            }));
        },
        ExprView::Variable(v) => {
            assert(ser_expr(e) =~= seq![TokenView::Identifier(v.name)]);
            assert(peek_tv(toks, 0) == TokenView::Identifier(v.name));
            assert(peek_tv(toks, 1) == peek_tv(rest, 0));
            assert(tok_adv(toks, 1) =~= rest);
            assert(spec_parse_primary(toks) =~= (Parsed {
                val: Some(e),
                rest,
                diags: Seq::<crate::diagnostics::DiagView>::empty(),
            }));
        },
        ExprView::FunctionCall(fc) => {
            let head = seq![TokenView::Identifier(fc.name), TokenView::Seperator("("@)];
            let mid = ser_args(fc.parameters) + seq![TokenView::Seperator(")"@)] + rest;
            assert(toks =~= head + mid);
            assert(peek_tv(toks, 0) == TokenView::Identifier(fc.name));
            assert(peek_tv(toks, 1) == TokenView::Seperator("("@));
            assert(tok_adv(toks, 2) =~= mid);
            lemma_reparse_args_full(fc.parameters, rest);
            assert(spec_parse_call_args(mid, true) == (Parsed {
                val: Some(fc.parameters),
                rest,
                diags: Seq::<crate::diagnostics::DiagView>::empty(),
            }));
            assert(spec_parse_function_call(toks).val =~= Some(
                FunctionCallView { name: fc.name, parameters: fc.parameters, decl: None },
            ));
            assert(FunctionCallView { name: fc.name, parameters: fc.parameters, decl: None }
                =~= fc);
            assert(spec_parse_primary(toks) =~= (Parsed {
                val: Some(e),
                rest,
                diags: Seq::<crate::diagnostics::DiagView>::empty(),
            }));
        },
        ExprView::Binary(b) => {
            let serl = ser_expr(*b.exp1);
            let serr = ser_expr(*b.exp2);
            lemma_ser_expr_len(*b.exp1);
            lemma_ser_expr_len(*b.exp2);
            assert(peek_tv(toks, 0) == TokenView::Seperator("("@));
            let restl = seq![TokenView::Operator(b.op)] + serr + seq![
                TokenView::Seperator(")"@),
            ] + rest;
            assert(tok_adv(toks, 1) =~= serl + restl);
            // the inner expression: parse the left operand ...
            assert(peek_tv(restl, 0) == TokenView::Operator(b.op));
            assert(op_prec("("@) == -1);
            assert(tv_text(peek_tv(restl, 0)) == b.op);
            assert(b.op != "("@);
            lemma_reparse_primary(*b.exp1, restl);
            // ... then climb through the one operator ...
            let restr = seq![TokenView::Seperator(")"@)] + rest;
            assert(tok_adv(restl, 1) =~= serr + restr);
            assert(peek_tv(restr, 0) == TokenView::Seperator(")"@));
            assert(op_prec(")"@) == -1);
            lemma_reparse_binary(*b.exp2, restr, op_prec(b.op));
            let rhs = spec_parse_binary(serr + restr, op_prec(b.op));
            assert(rhs.rest.len() < restl.len());
            let combined = ExprView::Binary(
                crate::ast::BinaryView {
                    op: tv_text(peek_tv(restl, 0)),
                    exp1: Box::new(*b.exp1),
                    exp2: Box::new(*b.exp2),
                },
            );
            assert(combined =~= e);
            let tail2 = spec_binary_tail(combined, restr, 0);
            assert(!(peek_tv(restr, 0) is Operator));
            assert(tail2 =~= (Parsed {
                val: Some(e),
                rest: restr,
                diags: Seq::<crate::diagnostics::DiagView>::empty(),
            }));
            let t1 = spec_binary_tail(*b.exp1, restl, 0);
            lemma_empty_diags2();
            assert(t1 =~= (Parsed {
                val: Some(e),
                rest: restr,
                diags: Seq::<crate::diagnostics::DiagView>::empty(),
            }));
            let inner = spec_parse_binary(serl + restl, 0);
            assert(inner =~= (Parsed {
                val: Some(e),
                rest: restr,
                diags: Seq::<crate::diagnostics::DiagView>::empty(),
            }));
            assert(spec_parse_expression(tok_adv(toks, 1)) == inner);
            assert(tok_adv(restr, 1) =~= rest);
            assert(spec_parse_primary(toks) =~= (Parsed {
                val: Some(e),
                rest,
                diags: Seq::<crate::diagnostics::DiagView>::empty(),
            }));
        },
    }
}

/// A serialized well-formed expression re-parses as a whole expression
/// whenever what follows stops the precedence climb.
proof fn lemma_reparse_binary(e: ExprView, rest: Seq<TokenView>, prec: int)
    requires
        wf_expr(e),
        tv_text(peek_tv(rest, 0)) != "("@,
        !(op_prec(tv_text(peek_tv(rest, 0))) > prec && peek_tv(rest, 0) is Operator),
    ensures
        spec_parse_binary(ser_expr(e) + rest, prec) == (Parsed {
            val: Some(e),
            rest,
            diags: Seq::<crate::diagnostics::DiagView>::empty(),
        }),
    decreases e, 4int,
{
    lemma_sep_lits();
    lemma_op_lits();
    lemma_prec_of_seps();
    lemma_reparse_primary(e, rest);
    lemma_ser_expr_len(e);
    let toks = ser_expr(e) + rest;
    let p = spec_parse_primary(toks);
    let t = spec_binary_tail(e, rest, prec);
    assert(t =~= (Parsed {
        val: Some(e),
        rest,
        diags: Seq::<crate::diagnostics::DiagView>::empty(),
    }));
    lemma_empty_diags2();
    assert(spec_parse_binary(toks, prec) =~= (Parsed {
        val: Some(e),
        rest,
        diags: Seq::<crate::diagnostics::DiagView>::empty(),
    }));
}

/// A parenthesized well-formed expression re-parses as one primary,
/// whatever follows: the parentheses leave no mark in the tree.
proof fn lemma_reparse_paren(e: ExprView, rest: Seq<TokenView>)
    requires
        wf_expr(e),
    ensures
        spec_parse_primary(
            seq![TokenView::Seperator("("@)] + ser_expr(e) + seq![TokenView::Seperator(")"@)]
                + rest,
        ) == (Parsed {
            val: Some(e),
            rest,
            diags: Seq::<crate::diagnostics::DiagView>::empty(),
        }),
    decreases e, 5int,
{
    lemma_sep_lits();
    lemma_op_lits();
    lemma_prec_of_seps();
    lemma_ser_expr_len(e);
    let toks = seq![TokenView::Seperator("("@)] + ser_expr(e) + seq![TokenView::Seperator(")"@)]
        + rest;
    let restr = seq![TokenView::Seperator(")"@)] + rest;
    assert(peek_tv(toks, 0) == TokenView::Seperator("("@));
    assert(tok_adv(toks, 1) =~= ser_expr(e) + restr);
    assert(peek_tv(restr, 0) == TokenView::Seperator(")"@));
    lemma_reparse_binary(e, restr, 0);
    let inner = spec_parse_expression(ser_expr(e) + restr);
    assert(inner.val == Some(e));
    assert(inner.rest == restr);
    assert(tok_adv(restr, 1) =~= rest);
    assert(spec_parse_primary(toks) =~= (Parsed {
        val: Some(e),
        rest,
        diags: Seq::<crate::diagnostics::DiagView>::empty(),
    }));
}

/// A well-formed expression's tokens — bare or parenthesized — re-parse to
/// that expression whenever what follows stops the precedence climb.
proof fn lemma_reparse_expr_tokens(e: ExprView, head: Seq<TokenView>, rest: Seq<TokenView>)
    requires
        wf_expr(e),
        head == ser_expr(e) || head == seq![TokenView::Seperator("("@)] + ser_expr(e) + seq![
            TokenView::Seperator(")"@),
        ],
        tv_text(peek_tv(rest, 0)) != "("@,
        !(op_prec(tv_text(peek_tv(rest, 0))) > 0 && peek_tv(rest, 0) is Operator),
    ensures
        spec_parse_expression(head + rest) == (Parsed {
            val: Some(e),
            rest,
            diags: Seq::<crate::diagnostics::DiagView>::empty(),
        }),
    decreases e, 6int,
{
    if head == ser_expr(e) {
        lemma_reparse_binary(e, rest, 0);
    } else {
        lemma_reparse_paren(e, rest);
        assert(head + rest =~= seq![TokenView::Seperator("("@)] + ser_expr(e) + seq![
            TokenView::Seperator(")"@),
        ] + rest);
        let p = spec_parse_primary(head + rest);
        assert(p.val == Some(e));
        assert(p.rest == rest);
        let t = spec_binary_tail(e, rest, 0);
        assert(t.val == Some(e));
        assert(t.rest == rest);
        lemma_empty_diags2();
        assert(spec_parse_binary(head + rest, 0) =~= (Parsed {
            val: Some(e),
            rest,
            diags: Seq::<crate::diagnostics::DiagView>::empty(),
        }));
    }
}

/// A serialized well-formed argument list, followed by the closing
/// parenthesis, re-parses to exactly those arguments.
proof fn lemma_reparse_args_full(ps: Seq<ExprView>, rest: Seq<TokenView>)
    requires
        wf_args(ps),
    ensures
        spec_parse_call_args(
            ser_args(ps) + seq![TokenView::Seperator(")"@)] + rest,
            true,
        ) == (Parsed {
            val: Some(ps),
            rest,
            diags: Seq::<crate::diagnostics::DiagView>::empty(),
        }),
    decreases ps, 8int,
{
    lemma_sep_lits();
    lemma_op_lits();
    lemma_prec_of_seps();
    let toks = ser_args(ps) + seq![TokenView::Seperator(")"@)] + rest;
    if ps.len() == 0 {
        assert(toks =~= seq![TokenView::Seperator(")"@)] + rest);
        assert(peek_tv(toks, 0) == TokenView::Seperator(")"@));
        assert(tok_adv(toks, 1) =~= rest);
        assert(spec_parse_call_args(toks, true) =~= (Parsed {
            val: Some(ps),
            rest,
            diags: Seq::<crate::diagnostics::DiagView>::empty(),
        }));
    } else {
        lemma_ser_expr_len(ps[0]);
        // the first token is never the closing parenthesis: a first argument
        // that would read so is parenthesized
        assert(ser_arg0(ps[0]).len() > 0);
        assert(peek_tv(toks, 0) == ser_arg0(ps[0])[0]);
        if tv_text(first_ser_tok(ps[0])) == ")"@ {
            assert(ser_arg0(ps[0])[0] == TokenView::Seperator("("@));
            assert(tv_text(peek_tv(toks, 0)) != ")"@);
        } else {
            assert(ser_arg0(ps[0])[0] == first_ser_tok(ps[0]));
            assert(tv_text(peek_tv(toks, 0)) != ")"@);
        }
        assert(toks =~= ser_arg0(ps[0]) + ser_args_tail(ps.drop_first()) + seq![
            TokenView::Seperator(")"@),
        ] + rest);
        lemma_reparse_args_chain(ps, ser_arg0(ps[0]), rest);
        assert(spec_parse_call_args(toks, true) == spec_parse_call_args(toks, false));
    }
}

/// The arguments re-parse one by one: the first from `head` (its bare or
/// parenthesized tokens), each later one after its comma, and the list
/// closes at the parenthesis.
proof fn lemma_reparse_args_chain(ps: Seq<ExprView>, head: Seq<TokenView>, rest: Seq<TokenView>)
    requires
        wf_args(ps),
        ps.len() > 0,
        head == ser_expr(ps[0]) || head == seq![TokenView::Seperator("("@)] + ser_expr(ps[0])
            + seq![TokenView::Seperator(")"@)],
    ensures
        spec_parse_call_args(
            head + ser_args_tail(ps.drop_first()) + seq![TokenView::Seperator(")"@)] + rest,
            false,
        ) == (Parsed {
            val: Some(ps),
            rest,
            diags: Seq::<crate::diagnostics::DiagView>::empty(),
        }),
    decreases ps, 7int,
{
    lemma_sep_lits();
    lemma_op_lits();
    lemma_prec_of_seps();
    lemma_ser_expr_len(ps[0]);
    let toks = head + ser_args_tail(ps.drop_first()) + seq![TokenView::Seperator(")"@)] + rest;
    if ps.len() == 1 {
        let rest0 = seq![TokenView::Seperator(")"@)] + rest;
        assert(ser_args_tail(ps.drop_first()) =~= Seq::<TokenView>::empty());
        assert(toks =~= head + rest0);
        assert(peek_tv(rest0, 0) == TokenView::Seperator(")"@));
        lemma_reparse_expr_tokens(ps[0], head, rest0);
        let e = spec_parse_expression(head + rest0);
        assert(e.val == Some(ps[0]));
        assert(e.rest == rest0);
        assert(tok_adv(rest0, 1) =~= rest);
        assert(seq![ps[0]] =~= ps);
        assert(spec_parse_call_args(toks, false) =~= (Parsed {
            val: Some(ps),
            rest,
            diags: Seq::<crate::diagnostics::DiagView>::empty(),
        }));
    } else {
        let d = ps.drop_first();
        let tailrest = ser_expr(d[0]) + ser_args_tail(d.drop_first()) + seq![
            TokenView::Seperator(")"@),
        ] + rest;
        let rest0 = seq![TokenView::Seperator(","@)] + tailrest;
        assert(ser_args_tail(d) =~= seq![TokenView::Seperator(","@)] + ser_expr(d[0])
            + ser_args_tail(d.drop_first()));
        assert(toks =~= head + rest0);
        assert(peek_tv(rest0, 0) == TokenView::Seperator(","@));
        lemma_reparse_expr_tokens(ps[0], head, rest0);
        let e = spec_parse_expression(head + rest0);
        assert(e.val == Some(ps[0]));
        assert(e.rest == rest0);
        assert(!(tv_text(peek_tv(rest0, 0)) == ")"@));
        assert(tok_adv(rest0, 1) =~= tailrest);
        assert(tailrest.len() < toks.len());
        lemma_reparse_args_chain(d, ser_expr(d[0]), rest);
        let rec = spec_parse_call_args(tailrest, false);
        assert(rec.val == Some(d));
        assert(seq![ps[0]] + d =~= ps);
        lemma_empty_diags2();
        assert(spec_parse_call_args(toks, false) =~= (Parsed {
            val: Some(ps),
            rest,
            diags: Seq::<crate::diagnostics::DiagView>::empty(),
        }));
    }
}

/// A serialized well-formed declaration-free statement sequence re-parses
/// to exactly those statements, consuming everything, with no diagnostics.
proof fn lemma_reparse_stmts(v: Seq<StmtView>)
    requires
        wf_prog(v),
    ensures
        spec_parse_statement_list(ser_stmts(v)) == (Parsed {
            val: v,
            rest: Seq::<TokenView>::empty(),
            diags: Seq::<crate::diagnostics::DiagView>::empty(),
        }),
    decreases v, 7int,
{
    lemma_sep_lits();
    lemma_op_lits();
    lemma_prec_of_seps();
    if v.len() == 0 {
        assert(ser_stmts(v).len() == 0);
        assert(spec_parse_statement_list(ser_stmts(v)) =~= (Parsed {
            val: v,
            rest: Seq::<TokenView>::empty(),
            diags: Seq::<crate::diagnostics::DiagView>::empty(),
        }));
    } else {
        assert(wf_stmt(v[0]));
        let e = match v[0] {
            StmtView::ExpressionStatement(e0) => e0,
            _ => v[0]->ExpressionStatement_0,
        };
        let toks = ser_stmts(v);
        let more = ser_stmts(v.drop_first());
        let rest0 = seq![TokenView::Seperator(";"@)] + more;
        assert(ser_stmt(v[0]) =~= ser_stmt_expr(e) + seq![TokenView::Seperator(";"@)]);
        assert(toks =~= ser_stmt_expr(e) + rest0);
        lemma_ser_expr_len(e);
        // the first token never reads as the end of a list or of the input
        let wrapped = e is NullLiteral || tv_text(first_ser_tok(e)) == "}"@;
        assert(ser_stmt_expr(e).len() > 0);
        if wrapped {
            assert(peek_tv(toks, 0) == TokenView::Seperator("("@));
        } else {
            assert(peek_tv(toks, 0) == first_ser_tok(e));
        }
        assert(tv_text(peek_tv(toks, 0)) != "}"@);
        assert(toks.len() > 0);
        assert(peek_tv(rest0, 0) == TokenView::Seperator(";"@));
        assert(op_prec(";"@) == -1);
        lemma_reparse_expr_tokens(e, ser_stmt_expr(e), rest0);
        let ep = spec_parse_expression(ser_stmt_expr(e) + rest0);
        assert(ep.val == Some(e));
        assert(ep.rest == rest0);
        assert(tok_adv(rest0, 1) =~= more);
        let es = spec_parse_expression_statement(toks);
        assert(es.val == Some(e));
        assert(es.rest == more);
        // the statement dispatch picks the expression-statement route
        let st = spec_parse_statement(toks);
        assert(st.val == Some(v[0])) by {
            if wrapped {
                assert(peek_tv(toks, 0) == TokenView::Seperator("("@));
            } else {
                match first_ser_tok(e) {
                    TokenView::Identifier(_) => {},
                    TokenView::IntegerLiteral(_) => {},
                    TokenView::DecimalLiteral(_) => {},
                    TokenView::StringLiteral(_) => {},
                    TokenView::BooleanLiteral(_) => {},
                    TokenView::Seperator(s) => {
                        assert(s == "("@);
                    },
                    _ => {
                        assert(false);
                    },
                }
            }
        }
        assert(st.rest == more);
        assert(st.diags =~= Seq::<crate::diagnostics::DiagView>::empty());
        assert(st.rest.len() < toks.len());
        assert(wf_prog(v.drop_first())) by {
            assert(forall|i: int|
                0 <= i < v.drop_first().len() ==> #[trigger] v.drop_first()[i] == v[i + 1]);
        }
        lemma_reparse_stmts(v.drop_first());
        let rec = spec_parse_statement_list(more);
        assert(seq![v[0]] + v.drop_first() =~= v);
        lemma_empty_diags2();
        assert(spec_parse_statement_list(toks) =~= (Parsed {
            val: v,
            rest: Seq::<TokenView>::empty(),
            diags: Seq::<crate::diagnostics::DiagView>::empty(),
        }));
    }
}

/// The round-trip law: re-serializing any well-formed, declaration-free
/// program to its token stream and re-parsing that stream yields a
/// structurally identical AST, consuming every token and reporting nothing.
pub proof fn lemma_round_trip(p: Seq<StmtView>)
    requires
        wf_prog(p),
    ensures
        spec_parse_prog(ser_stmts(p)) == (Parsed {
            val: p,
            rest: Seq::<TokenView>::empty(),
            diags: Seq::<crate::diagnostics::DiagView>::empty(),
        }),
{
    lemma_reparse_stmts(p);
}

} // verus!

verus! {

// ---------------------------------------------------------------------------
// Executable serialization
// ---------------------------------------------------------------------------

/// The views of a token vector, in order.
pub open spec fn toks_view(v: Seq<Token>) -> Seq<TokenView> {
    v.map_values(|t: Token| t@)
}

pub proof fn lemma_toks_view_push(v: Seq<Token>, t: Token)
    ensures
        toks_view(v.push(t)) == toks_view(v).push(t@),
{
    assert(toks_view(v.push(t)) =~= toks_view(v).push(t@));
}

/// The tokens of an argument tail end with a comma and the last argument.
proof fn lemma_ser_args_tail_snoc(s: Seq<ExprView>)
    requires
        s.len() > 0,
    ensures
        ser_args_tail(s) == ser_args_tail(s.drop_last()) + seq![TokenView::Seperator(","@)]
            + ser_expr(s.last()),
    decreases s.len(),
{
    if s.len() == 1 {
        assert(s.drop_last() =~= Seq::<ExprView>::empty());
        assert(s.drop_first() =~= Seq::<ExprView>::empty());
        assert(ser_args_tail(s) =~= ser_args_tail(s.drop_last()) + seq![
            TokenView::Seperator(","@),
        ] + ser_expr(s.last()));
    } else {
        let d = s.drop_first();
        lemma_ser_args_tail_snoc(d);
        assert(d.drop_last() =~= s.drop_last().drop_first());
        assert(d.last() == s.last());
        assert(s.drop_last()[0] == s[0]);
        assert(s.drop_last().len() > 0);
        assert(ser_args_tail(s.drop_last()) == seq![TokenView::Seperator(","@)] + ser_expr(s[0])
            + ser_args_tail(s.drop_last().drop_first()));
        assert(seq![TokenView::Seperator(","@)] + ser_expr(s[0]) + (ser_args_tail(d.drop_last())
            + seq![TokenView::Seperator(","@)] + ser_expr(d.last())) =~= (seq![
            TokenView::Seperator(","@),
        ] + ser_expr(s[0]) + ser_args_tail(d.drop_last())) + seq![TokenView::Seperator(","@)]
            + ser_expr(s.last()));
    }
}

/// The tokens of a statement sequence end with those of its last statement.
proof fn lemma_ser_stmts_snoc(s: Seq<StmtView>)
    requires
        s.len() > 0,
    ensures
        ser_stmts(s) == ser_stmts(s.drop_last()) + ser_stmt(s.last()),
    decreases s.len(),
{
    if s.len() == 1 {
        assert(s.drop_last() =~= Seq::<StmtView>::empty());
        assert(s.drop_first() =~= Seq::<StmtView>::empty());
        assert(ser_stmts(s) =~= ser_stmts(s.drop_last()) + ser_stmt(s.last()));
    } else {
        let d = s.drop_first();
        lemma_ser_stmts_snoc(d);
        assert(d.drop_last() =~= s.drop_last().drop_first());
        assert(d.last() == s.last());
        assert(s.drop_last()[0] == s[0]);
        assert(s.drop_last().len() > 0);
        assert(ser_stmts(s.drop_last()) == ser_stmt(s[0]) + ser_stmts(s.drop_last().drop_first()));
        assert(ser_stmt(s[0]) + (ser_stmts(d.drop_last()) + ser_stmt(d.last())) =~= (ser_stmt(
            s[0],
        ) + ser_stmts(d.drop_last())) + ser_stmt(s.last()));
    }
}

/// Whether the first token this expression serializes to reads as `s`.
fn first_token_text_is(e: &Expression, s: &str) -> (b: bool)
    ensures
        b == (tv_text(first_ser_tok(e@)) == s@),
{
    match e {
        Expression::Binary(b) => {
            proof {
                assert(first_ser_tok(e@) == TokenView::Seperator("("@));
            }
            crate::text::str_eq("(", s)
        },
        Expression::Variable(v) => {
            proof {
                assert(first_ser_tok(e@) == TokenView::Identifier(v.name@));
            }
            crate::text::str_eq(v.name.as_str(), s)
        },
        Expression::FunctionCall(fc) => {
            proof {
                assert(e@ == ExprView::FunctionCall(crate::ast::view_call(*fc)));
                assert(crate::ast::view_call(*fc).name == fc.name@);
                assert(first_ser_tok(e@) == TokenView::Identifier(fc.name@));
            }
            crate::text::str_eq(fc.name.as_str(), s)
        },
        Expression::IntegerLiteral(l) => {
            proof {
                assert(first_ser_tok(e@) == TokenView::IntegerLiteral(l.value@));
            }
            crate::text::str_eq(l.value.as_str(), s)
        },
        Expression::DecimalLiteral(l) => {
            proof {
                assert(first_ser_tok(e@) == TokenView::DecimalLiteral(l.value@));
            }
            crate::text::str_eq(l.value.as_str(), s)
        },
        Expression::StringLiteral(l) => {
            proof {
                assert(first_ser_tok(e@) == TokenView::StringLiteral(l.value@));
            }
            crate::text::str_eq(l.value.as_str(), s)
        },
        Expression::BooleanLiteral(l) => {
            proof {
                assert(first_ser_tok(e@) == TokenView::BooleanLiteral(l.value@));
            }
            crate::text::str_eq(l.value.as_str(), s)
        },
        Expression::NullLiteral => {
            proof {
                lemma_sep_lits();
                assert(first_ser_tok(e@) == TokenView::NullLiteral);
            }
            crate::text::str_eq("", s)
        },
    }
}

/// Appends the serialized tokens of one expression.
#[verifier::loop_isolation(false)]
#[verifier::rlimit(100)]
pub fn serialize_expr(e: &Expression, out: &mut Vec<Token>)
    ensures
        toks_view(final(out)@) == toks_view(old(out)@) + ser_expr(e@),
    decreases *e, 1int,
{
    let ghost base = toks_view(out@);
    match e {
        Expression::IntegerLiteral(l) => {
            let ghost prev = out@;
            out.push(Token::IntegerLiteral(l.value.clone()));
            proof {
                lemma_toks_view_push(prev, out@.last());
                assert(toks_view(out@) =~= base + ser_expr(e@));
            }
        },
        Expression::DecimalLiteral(l) => {
            let ghost prev = out@;
            out.push(Token::DecimalLiteral(l.value.clone()));
            proof {
                lemma_toks_view_push(prev, out@.last());
                assert(toks_view(out@) =~= base + ser_expr(e@));
            }
        },
        Expression::StringLiteral(l) => {
            let ghost prev = out@;
            out.push(Token::StringLiteral(l.value.clone()));
            proof {
                lemma_toks_view_push(prev, out@.last());
                assert(toks_view(out@) =~= base + ser_expr(e@));
            }
        },
        Expression::BooleanLiteral(l) => {
            let ghost prev = out@;
            out.push(Token::BooleanLiteral(l.value.clone()));
            proof {
                lemma_toks_view_push(prev, out@.last());
                assert(toks_view(out@) =~= base + ser_expr(e@));
            }
        },
        Expression::NullLiteral => {
            let ghost prev = out@;
            out.push(Token::NullLiteral);
            proof {
                lemma_toks_view_push(prev, out@.last());
                assert(toks_view(out@) =~= base + ser_expr(e@));
            }
        },
        Expression::Variable(v) => {
            let ghost prev = out@;
            out.push(Token::Identifier(v.name.clone()));
            proof {
                lemma_toks_view_push(prev, out@.last());
                assert(toks_view(out@) =~= base + ser_expr(e@));
            }
        },
        Expression::FunctionCall(fc) => {
            let ghost prev0 = out@;
            out.push(Token::Identifier(fc.name.clone()));
            proof {
                lemma_toks_view_push(prev0, out@.last());
            }
            let ghost prev1 = out@;
            out.push(Token::Seperator(String::from_str("(")));
            proof {
                lemma_toks_view_push(prev1, out@.last());
                assert(toks_view(out@) =~= base + seq![
                    TokenView::Identifier(fc.name@),
                    TokenView::Seperator("("@),
                ]);
                crate::ast::lemma_view_exprs_len(fc.parameters@);
            }
            let ghost head = toks_view(out@);
            let ghost args = view_exprs(fc.parameters@);
            if fc.parameters.len() > 0 {
                proof {
                    crate::ast::lemma_view_exprs_index(fc.parameters@, 0);
                }
                // the first argument: parenthesized where its first token
                // would read like the closing parenthesis
                if first_token_text_is(&fc.parameters[0], ")") {
                    let ghost prevl = out@;
                    out.push(Token::Seperator(String::from_str("(")));
                    proof {
                        lemma_toks_view_push(prevl, out@.last());
                    }
                    serialize_expr(&fc.parameters[0], out);
                    let ghost prevr = out@;
                    out.push(Token::Seperator(String::from_str(")")));
                    proof {
                        lemma_toks_view_push(prevr, out@.last());
                        assert(toks_view(out@) =~= head + ser_arg0(args[0]));
                    }
                } else {
                    serialize_expr(&fc.parameters[0], out);
                    proof {
                        assert(ser_arg0(args[0]) == ser_expr(args[0]));
                    }
                }
                proof {
                    assert(args.take(1).drop_first() =~= Seq::<ExprView>::empty());
                    assert(args.take(1)[0] == args[0]);
                    assert(ser_args(args.take(1)) =~= ser_arg0(args[0]));
                    assert(toks_view(out@) =~= head + ser_args(args.take(1)));
                }
                let mut i: usize = 1;
                while i < fc.parameters.len()
                    invariant
                        1 <= i <= fc.parameters@.len(),
                        args.len() == fc.parameters@.len(),
                        toks_view(out@) == head + ser_args(args.take(i as int)),
                    decreases fc.parameters@.len() - i,
                {
                    proof {
                        crate::ast::lemma_view_exprs_index(fc.parameters@, i as int);
                    }
                    let ghost prev = out@;
                    out.push(Token::Seperator(String::from_str(",")));
                    proof {
                        lemma_toks_view_push(prev, out@.last());
                    }
                    let ghost mid = toks_view(out@);
                    serialize_expr(&fc.parameters[i], out);
                    proof {
                        let t1 = args.take(i + 1 as int).drop_first();
                        assert(t1.len() == i);
                        lemma_ser_args_tail_snoc(t1);
                        assert(t1.drop_last() =~= args.take(i as int).drop_first());
                        assert(t1.last() == args[i as int]);
                        assert(args.take(i + 1 as int)[0] == args[0]);
                        assert(args.take(i as int)[0] == args[0]);
                        assert(ser_args(args.take(i + 1 as int)) == ser_arg0(args[0]) + (
                        ser_args_tail(args.take(i as int).drop_first()) + seq![
                            TokenView::Seperator(","@),
                        ] + ser_expr(args[i as int])));
                        assert(mid =~= head + (ser_arg0(args[0]) + ser_args_tail(
                            args.take(i as int).drop_first(),
                        )) + seq![TokenView::Seperator(","@)]);
                        assert(toks_view(out@) =~= head + ser_args(args.take(i + 1 as int)));
                    }
                    i += 1;
                }
            } else {
                proof {
                    assert(args.take(0) =~= args);
                    assert(ser_args(args.take(0)) =~= Seq::<TokenView>::empty());
                    assert(toks_view(out@) =~= head + ser_args(args.take(0)));
                }
            }
            proof {
                assert(args.take(args.len() as int) =~= args);
            }
            let ghost prev2 = out@;
            out.push(Token::Seperator(String::from_str(")")));
            proof {
                lemma_toks_view_push(prev2, out@.last());
                assert(toks_view(out@) =~= (head + ser_args(args)).push(
                    TokenView::Seperator(")"@),
                ));
                assert(e@ == ExprView::FunctionCall(crate::ast::view_call(*fc)));
                assert(crate::ast::view_call(*fc).parameters == args);
                assert(crate::ast::view_call(*fc).name == fc.name@);
                assert(ser_expr(e@) =~= seq![
                    TokenView::Identifier(fc.name@),
                    TokenView::Seperator("("@),
                ] + ser_args(args) + seq![TokenView::Seperator(")"@)]);
                assert(toks_view(out@) =~= base + ser_expr(e@));
            }
        },
        Expression::Binary(b) => {
            let ghost prev0 = out@;
            out.push(Token::Seperator(String::from_str("(")));
            proof {
                lemma_toks_view_push(prev0, out@.last());
            }
            serialize_expr(&b.exp1, out);
            let ghost prev1 = out@;
            out.push(Token::Operator(b.op.clone()));
            proof {
                lemma_toks_view_push(prev1, out@.last());
            }
            serialize_expr(&b.exp2, out);
            let ghost prev2 = out@;
            out.push(Token::Seperator(String::from_str(")")));
            proof {
                lemma_toks_view_push(prev2, out@.last());
                assert(toks_view(out@) =~= base + ser_expr(e@));
            }
        },
    }
}

/// Appends the serialized tokens of one statement.
pub fn serialize_stmt(st: &Statement, out: &mut Vec<Token>)
    ensures
        toks_view(final(out)@) == toks_view(old(out)@) + ser_stmt(st@),
    decreases *st, 2int,
{
    let ghost base = toks_view(out@);
    match st {
        Statement::ExpressionStatement(es) => {
            // parenthesized where the bare expression could not start a
            // statement or its first token would read like a closing brace
            let is_null = match &es.exp {
                Expression::NullLiteral => true,
                _ => false,
            };
            if is_null || first_token_text_is(&es.exp, "}") {
                let ghost prevl = out@;
                out.push(Token::Seperator(String::from_str("(")));
                proof {
                    lemma_toks_view_push(prevl, out@.last());
                }
                serialize_expr(&es.exp, out);
                let ghost prevr = out@;
                out.push(Token::Seperator(String::from_str(")")));
                proof {
                    lemma_toks_view_push(prevr, out@.last());
                    assert(toks_view(out@) =~= base + ser_stmt_expr(es.exp@));
                }
            } else {
                serialize_expr(&es.exp, out);
                proof {
                    assert(ser_stmt_expr(es.exp@) == ser_expr(es.exp@));
                }
            }
            let ghost prev = out@;
            out.push(Token::Seperator(String::from_str(";")));
            proof {
                lemma_toks_view_push(prev, out@.last());
                assert(toks_view(out@) =~= (base + ser_stmt_expr(es.exp@)).push(
                    TokenView::Seperator(";"@),
                ));
                assert(toks_view(out@) =~= base + ser_stmt(st@));
            }
        },
        Statement::VariableDecl(vd) => {
            let ghost prev0 = out@;
            out.push(Token::Keyword(String::from_str("let")));
            proof {
                lemma_toks_view_push(prev0, out@.last());
            }
            let ghost prev1 = out@;
            out.push(Token::Identifier(vd.name.clone()));
            proof {
                lemma_toks_view_push(prev1, out@.last());
            }
            let ghost prev2 = out@;
            out.push(Token::Seperator(String::from_str(":")));
            proof {
                lemma_toks_view_push(prev2, out@.last());
            }
            let ghost prev3 = out@;
            out.push(Token::Identifier(vd.var_type.clone()));
            proof {
                lemma_toks_view_push(prev3, out@.last());
            }
            match &vd.init {
                Some(e) => {
                    let ghost prev4 = out@;
                    out.push(Token::Operator(String::from_str("=")));
                    proof {
                        lemma_toks_view_push(prev4, out@.last());
                    }
                    serialize_expr(e, out);
                },
                None => {},
            }
            let ghost prev5 = out@;
            out.push(Token::Seperator(String::from_str(";")));
            proof {
                lemma_toks_view_push(prev5, out@.last());
                assert(toks_view(out@) =~= base + ser_stmt(st@));
            }
        },
        Statement::FunctionDecl(fd) => {
            let ghost prev0 = out@;
            out.push(Token::Keyword(String::from_str("fn")));
            proof {
                lemma_toks_view_push(prev0, out@.last());
            }
            let ghost prev1 = out@;
            out.push(Token::Identifier(fd.name.clone()));
            proof {
                lemma_toks_view_push(prev1, out@.last());
            }
            let ghost prev2 = out@;
            out.push(Token::Seperator(String::from_str("(")));
            proof {
                lemma_toks_view_push(prev2, out@.last());
            }
            let ghost prev3 = out@;
            out.push(Token::Seperator(String::from_str(")")));
            proof {
                lemma_toks_view_push(prev3, out@.last());
            }
            let ghost prev4 = out@;
            out.push(Token::Seperator(String::from_str("{")));
            proof {
                lemma_toks_view_push(prev4, out@.last());
            }
            serialize_stmts(&fd.body.stmts, out);
            let ghost prev5 = out@;
            out.push(Token::Seperator(String::from_str("}")));
            proof {
                lemma_toks_view_push(prev5, out@.last());
                assert(toks_view(out@) =~= base + ser_stmt(st@));
            }
        },
    }
}

/// Appends the serialized tokens of a statement sequence.
#[verifier::loop_isolation(false)]
pub fn serialize_stmts(stmts: &Vec<Statement>, out: &mut Vec<Token>)
    ensures
        toks_view(final(out)@) == toks_view(old(out)@) + ser_stmts(view_stmts(stmts@)),
    decreases *stmts, 1int,
{
    let ghost base = toks_view(out@);
    let ghost sv = view_stmts(stmts@);
    proof {
        crate::ast::lemma_view_stmts_len(stmts@);
        assert(ser_stmts(sv.take(0)) =~= Seq::<TokenView>::empty());
        assert(toks_view(out@) =~= base + ser_stmts(sv.take(0)));
    }
    let mut i: usize = 0;
    while i < stmts.len()
        invariant
            i <= stmts@.len(),
            sv.len() == stmts@.len(),
            toks_view(out@) == base + ser_stmts(sv.take(i as int)),
        decreases stmts@.len() - i,
    {
        proof {
            crate::ast::lemma_view_stmts_index(stmts@, i as int);
        }
        serialize_stmt(&stmts[i], out);
        proof {
            lemma_ser_stmts_snoc(sv.take(i + 1 as int));
            assert(sv.take(i + 1 as int).drop_last() =~= sv.take(i as int));
            assert(sv.take(i + 1 as int).last() == sv[i as int]);
            assert((base + ser_stmts(sv.take(i as int))) + ser_stmt(sv[i as int]) =~= base
                + ser_stmts(sv.take(i + 1 as int)));
        }
        i += 1;
    }
    proof {
        assert(sv.take(sv.len() as int) =~= sv);
    }
}

/// The token stream of a whole program; structure, not whitespace.
pub fn serialize_prog(prog: &Prog) -> (out: Vec<Token>)
    ensures
        toks_view(out@) == ser_stmts(prog@),
{
    let mut out: Vec<Token> = Vec::new();
    proof {
        assert(toks_view(out@) =~= Seq::<TokenView>::empty());
    }
    serialize_stmts(&prog.stmts, &mut out);
    proof {
        assert(Seq::<TokenView>::empty() + ser_stmts(view_stmts(prog.stmts@)) =~= ser_stmts(
        prog@));
    }
    out
}

} // verus!
