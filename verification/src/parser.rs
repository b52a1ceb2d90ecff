//! Syntactic analysis: recursive descent for statements and declarations,
//! precedence climbing for binary expressions, with a two-token lookahead to
//! tell a function call from a variable reference.
//!
//! The parser's behaviour is pinned by a family of specification-level parse
//! functions over token views; each executable parse routine is proved to
//! return exactly what its specification counterpart says, to leave exactly
//! the specified tokens unconsumed, and to report exactly the specified
//! diagnostics. A routine that cannot match reports and returns no node; the
//! statement-list loop goes on at the position the failed routine reached,
//! and stops once a statement start makes no progress possible.

use vstd::prelude::*;

use crate::ast::Binary;
use crate::ast::BinaryView;
use crate::ast::Block;
use crate::ast::BooleanLiteral;
use crate::ast::DecimalLiteral;
use crate::ast::ExprView;
use crate::ast::Expression;
use crate::ast::ExpressionStatement;
use crate::ast::FunctionCall;
use crate::ast::FunctionCallView;
use crate::ast::FunctionDecl;
use crate::ast::FunctionDeclView;
use crate::ast::IntegerLiteral;
use crate::ast::Prog;
use crate::ast::Statement;
use crate::ast::StmtView;
use crate::ast::StringLiteral;
use crate::ast::Variable;
use crate::ast::VariableDecl;
use crate::ast::VariableDeclView;
use crate::ast::VariableView;
use crate::ast::view_exprs;
use crate::ast::view_stmts;
use crate::ast::lemma_view_exprs_push;
use crate::ast::lemma_view_stmts_push;
use crate::diagnostics::Diagnostic;
use crate::diagnostics::DiagView;
use crate::diagnostics::diags_view;
use crate::diagnostics::lemma_diags_view_push;
use crate::scanner::Scanner;
use crate::scanner::Token;
use crate::scanner::TokenView;
use crate::scanner::tv_text;
use crate::text::str_eq;

verus! {

// ---------------------------------------------------------------------------
// The specification-level parser
// ---------------------------------------------------------------------------

/// Result of one specification-level parse step: the parsed value, the
/// tokens left, and the diagnostics reported.
#[verifier::ext_equal]
pub struct Parsed<T> {
    pub val: T,
    pub rest: Seq<TokenView>,
    pub diags: Seq<DiagView>,
}

/// The `i`-th upcoming token, or the end-of-input marker past the end.
pub open spec fn peek_tv(toks: Seq<TokenView>, i: int) -> TokenView {
    if 0 <= i < toks.len() {
        toks[i]
    } else {
        TokenView::EndOfInput
    }
}

/// The tokens after consuming `n`; consuming past the end consumes nothing.
pub open spec fn tok_adv(toks: Seq<TokenView>, n: int) -> Seq<TokenView> {
    if n <= toks.len() {
        toks.skip(n)
    } else {
        Seq::empty()
    }
}

/// The fixed operator precedence table: assignment-class operators lowest,
/// then logical, bitwise, equality, relational, shift, additive and
/// multiplicative; `-1` for anything that is no binary operator.
pub open spec fn op_prec(s: Seq<char>) -> int {
    if s == "="@ || s == "+="@ || s == "-="@ || s == "*="@ || s == "/="@ || s == "%="@ || s
        == "&="@ || s == "|="@ || s == "^="@ || s == "<<="@ || s == ">>="@ {
        2
    } else if s == "||"@ {
        4
    } else if s == "&&"@ {
        5
    } else if s == "|"@ {
        6
    } else if s == "^"@ {
        7
    } else if s == "&"@ {
        8
    } else if s == "=="@ || s == "!="@ {
        9
    } else if s == ">"@ || s == ">="@ || s == "<"@ || s == "<="@ {
        10
    } else if s == "<<"@ || s == ">>"@ {
        11
    } else if s == "+"@ || s == "-"@ {
        12
    } else if s == "*"@ || s == "/"@ || s == "%"@ {
        13
    } else {
        -1
    }
}

/// Whether a statement can start at this token: such a statement consumes at
/// least that token, even when it fails; at any other token the statement
/// parser consumes nothing, and the statement-list loop stops.
pub open spec fn starts_statement(t: TokenView) -> bool {
    match t {
        TokenView::Keyword(s) => s == "fn"@ || s == "let"@,
        TokenView::Identifier(_) => true,
        TokenView::BooleanLiteral(_) => true,
        TokenView::StringLiteral(_) => true,
        TokenView::IntegerLiteral(_) => true,
        TokenView::DecimalLiteral(_) => true,
        TokenView::Seperator(s) => s == "("@,
        _ => false,
    }
}

/// Whether a primary expression can start at this token.
pub open spec fn starts_primary(t: TokenView) -> bool {
    match t {
        TokenView::Identifier(_) => true,
        TokenView::BooleanLiteral(_) => true,
        TokenView::StringLiteral(_) => true,
        TokenView::IntegerLiteral(_) => true,
        TokenView::DecimalLiteral(_) => true,
        TokenView::NullLiteral => true,
        t2 => tv_text(t2) == "("@,
    }
}

/// prog = statementList? EOF
pub open spec fn spec_parse_prog(toks: Seq<TokenView>) -> Parsed<Seq<StmtView>> {
    spec_parse_statement_list(toks)
}

/// statementList = statement+, ending at end of input or at `}`.
pub open spec fn spec_parse_statement_list(toks: Seq<TokenView>) -> Parsed<Seq<StmtView>>
    decreases toks.len(), 10int,
{
    if toks.len() == 0 || tv_text(peek_tv(toks, 0)) == "}"@ {
        Parsed { val: Seq::empty(), rest: toks, diags: Seq::empty() }
    } else {
        let st = spec_parse_statement(toks);
        match st.val {
            Some(s) => {
                if st.rest.len() < toks.len() {
                    let rec = spec_parse_statement_list(st.rest);
                    Parsed { val: seq![s] + rec.val, rest: rec.rest, diags: st.diags + rec.diags }
                } else {
                    Parsed { val: seq![s], rest: st.rest, diags: st.diags }
                }
            },
            None => {
                if st.rest.len() < toks.len() {
                    let rec = spec_parse_statement_list(st.rest);
                    Parsed {
                        val: rec.val,
                        rest: rec.rest,
                        diags: st.diags + seq![DiagView::StatementNotRecognized] + rec.diags,
                    }
                } else {
                    Parsed {
                        val: Seq::empty(),
                        rest: st.rest,
                        diags: st.diags + seq![DiagView::StatementNotRecognized],
                    }
                }
            },
        }
    }
}

/// statement = functionDecl | variableDecl | expressionStatement, chosen by
/// the first token.
pub open spec fn spec_parse_statement(toks: Seq<TokenView>) -> Parsed<Option<StmtView>>
    decreases toks.len(), 9int,
{
    match peek_tv(toks, 0) {
        TokenView::Keyword(text) => {
            if text == "fn"@ {
                let fd = spec_parse_function_decl(toks);
                Parsed {
                    val: match fd.val {
                        Some(f) => Some(StmtView::FunctionDecl(f)),
                        None => None,
                    },
                    rest: fd.rest,
                    diags: fd.diags,
                }
            } else if text == "let"@ {
                let vd = spec_parse_variable_decl(toks);
                Parsed {
                    val: match vd.val {
                        Some(v) => Some(StmtView::VariableDecl(v)),
                        None => None,
                    },
                    rest: vd.rest,
                    diags: vd.diags,
                }
            } else {
                Parsed { val: None, rest: toks, diags: seq![DiagView::UnexpectedStatementStart] }
            }
        },
        TokenView::Identifier(_) => spec_parse_statement_expr(toks),
        TokenView::BooleanLiteral(_) => spec_parse_statement_expr(toks),
        TokenView::StringLiteral(_) => spec_parse_statement_expr(toks),
        TokenView::IntegerLiteral(_) => spec_parse_statement_expr(toks),
        TokenView::DecimalLiteral(_) => spec_parse_statement_expr(toks),
        TokenView::Seperator(s) => {
            if s == "("@ {
                spec_parse_statement_expr(toks)
            } else {
                Parsed { val: None, rest: toks, diags: seq![DiagView::UnexpectedStatementStart] }
            }
        },
        _ => Parsed { val: None, rest: toks, diags: seq![DiagView::UnexpectedStatementStart] },
    }
}

/// An expression statement wrapped as a statement.
pub open spec fn spec_parse_statement_expr(toks: Seq<TokenView>) -> Parsed<Option<StmtView>>
    decreases toks.len(), 8int,
{
    let es = spec_parse_expression_statement(toks);
    Parsed {
        val: match es.val {
            Some(e) => Some(StmtView::ExpressionStatement(e)),
            None => None,
        },
        rest: es.rest,
        diags: es.diags,
    }
}

/// variableDecl = 'let' Identifier (':' Identifier)? ('=' expression)? ';'
pub open spec fn spec_parse_variable_decl(toks: Seq<TokenView>) -> Parsed<Option<VariableDeclView>>
    decreases toks.len(), 8int,
{
    match peek_tv(toks, 1) {
        TokenView::Identifier(name) => {
            let r2 = tok_adv(toks, 2);
            if tv_text(peek_tv(r2, 0)) == ":"@ {
                let r3 = tok_adv(r2, 1);
                match peek_tv(r3, 0) {
                    TokenView::Identifier(ty) => spec_parse_variable_init(
                        name,
                        ty,
                        tok_adv(r3, 1),
                    ),
                    _ => Parsed {
                        val: None,
                        rest: r3,
                        diags: seq![DiagView::ExpectedTypeAnnotation],
                    },
                }
            } else {
                spec_parse_variable_init(name, "any"@, r2)
            }
        },
        _ => Parsed {
            val: None,
            rest: tok_adv(toks, 2),
            diags: seq![DiagView::ExpectedVariableName],
        },
    }
}

/// The initializer and terminating `;` of a variable declaration. A failed
/// initializer leaves the declaration without one; a missing `;` is
/// reported and makes the whole declaration fail.
pub open spec fn spec_parse_variable_init(name: Seq<char>, ty: Seq<char>, r: Seq<TokenView>) -> Parsed<
    Option<VariableDeclView>,
>
    decreases r.len(), 7int,
{
    if tv_text(peek_tv(r, 0)) == "="@ {
        let e = spec_parse_expression(tok_adv(r, 1));
        let init = match e.val {
            Some(x) => Some(Box::new(x)),
            None => None,
        };
        if tv_text(peek_tv(e.rest, 0)) == ";"@ {
            Parsed {
                val: Some(VariableDeclView { name, var_type: ty, init }),
                rest: tok_adv(e.rest, 1),
                diags: e.diags,
            }
        } else {
            Parsed {
                val: None,
                rest: e.rest,
                diags: e.diags + seq![DiagView::ExpectedSemicolon],
            }
        }
    } else if tv_text(peek_tv(r, 0)) == ";"@ {
        Parsed {
            val: Some(VariableDeclView { name, var_type: ty, init: None }),
            rest: tok_adv(r, 1),
            diags: Seq::empty(),
        }
    } else {
        Parsed { val: None, rest: r, diags: seq![DiagView::ExpectedSemicolon] }
    }
}

/// functionDecl = 'fn' Identifier '(' ')' functionBody
pub open spec fn spec_parse_function_decl(toks: Seq<TokenView>) -> Parsed<Option<FunctionDeclView>>
    decreases toks.len(), 8int,
{
    match peek_tv(toks, 1) {
        TokenView::Identifier(fn_name) => {
            if tv_text(peek_tv(toks, 2)) == "("@ {
                if tv_text(peek_tv(toks, 3)) == ")"@ {
                    let b = spec_parse_function_body(tok_adv(toks, 4));
                    match b.val {
                        Some(body) => Parsed {
                            val: Some(FunctionDeclView { name: fn_name, body }),
                            rest: b.rest,
                            diags: b.diags,
                        },
                        None => Parsed {
                            val: None,
                            rest: b.rest,
                            diags: b.diags + seq![DiagView::ExpectedFunctionBody],
                        },
                    }
                } else {
                    Parsed {
                        val: None,
                        rest: tok_adv(toks, 4),
                        diags: seq![DiagView::ExpectedRightParen],
                    }
                }
            } else {
                Parsed {
                    val: None,
                    rest: tok_adv(toks, 3),
                    diags: seq![DiagView::ExpectedLeftParen],
                }
            }
        },
        _ => Parsed {
            val: None,
            rest: tok_adv(toks, 2),
            diags: seq![DiagView::ExpectedFunctionName],
        },
    }
}

/// functionBody = '{' statementList? '}'
pub open spec fn spec_parse_function_body(toks: Seq<TokenView>) -> Parsed<Option<Seq<StmtView>>>
    decreases toks.len(), 7int,
    via spec_parse_function_body_decreases
{
    if tv_text(peek_tv(toks, 0)) == "{"@ {
        let l = spec_parse_statement_list(tok_adv(toks, 1));
        if tv_text(peek_tv(l.rest, 0)) == "}"@ {
            Parsed { val: Some(l.val), rest: tok_adv(l.rest, 1), diags: l.diags }
        } else {
            Parsed {
                val: None,
                rest: tok_adv(l.rest, 1),
                diags: l.diags + seq![DiagView::ExpectedRightBrace],
            }
        }
    } else {
        Parsed { val: None, rest: toks, diags: seq![DiagView::ExpectedLeftBrace] }
    }
}

/// expressionStatement = expression ';'
pub open spec fn spec_parse_expression_statement(toks: Seq<TokenView>) -> Parsed<Option<ExprView>>
    decreases toks.len(), 7int,
{
    let e = spec_parse_expression(toks);
    match e.val {
        Some(x) => {
            if tv_text(peek_tv(e.rest, 0)) == ";"@ {
                Parsed { val: Some(x), rest: tok_adv(e.rest, 1), diags: e.diags }
            } else {
                Parsed {
                    val: None,
                    rest: e.rest,
                    diags: e.diags + seq![DiagView::ExpectedSemicolon],
                }
            }
        },
        None => Parsed {
            val: None,
            rest: e.rest,
            diags: e.diags + seq![DiagView::ExpectedExpression],
        },
    }
}

/// expression = primary (binOp primary)*, by precedence climbing.
pub open spec fn spec_parse_expression(toks: Seq<TokenView>) -> Parsed<Option<ExprView>>
    decreases toks.len(), 6int,
{
    spec_parse_binary(toks, 0)
}

/// One precedence-climbing level: a primary, then every operator binding
/// tighter than `prec`.
pub open spec fn spec_parse_binary(toks: Seq<TokenView>, prec: int) -> Parsed<Option<ExprView>>
    decreases toks.len(), 5int,
{
    let p = spec_parse_primary(toks);
    match p.val {
        Some(e1) => {
            if p.rest.len() <= toks.len() {
                let t = spec_binary_tail(e1, p.rest, prec);
                Parsed { val: t.val, rest: t.rest, diags: p.diags + t.diags }
            } else {
                Parsed { val: Some(e1), rest: p.rest, diags: p.diags }
            }
        },
        None => Parsed {
            val: None,
            rest: p.rest,
            diags: p.diags + seq![DiagView::ExpectedExpression],
        },
    }
}

/// The climbing loop: while the upcoming token is an operator binding
/// tighter than `prec`, parse its right-hand side at that precedence and
/// fold the pair into a binary node. A right-hand side that fails is
/// reported and ends the loop with the expression built so far.
pub open spec fn spec_binary_tail(e1: ExprView, toks: Seq<TokenView>, prec: int) -> Parsed<
    Option<ExprView>,
>
    decreases toks.len(), 4int,
{
    let t = peek_tv(toks, 0);
    let tprec = op_prec(tv_text(t));
    if tprec > prec && t is Operator {
        let rhs = spec_parse_binary(tok_adv(toks, 1), tprec);
        match rhs.val {
            Some(e2) => {
                let combined = ExprView::Binary(
                    BinaryView { op: tv_text(t), exp1: Box::new(e1), exp2: Box::new(e2) },
                );
                if rhs.rest.len() < toks.len() {
                    let rec = spec_binary_tail(combined, rhs.rest, prec);
                    Parsed { val: rec.val, rest: rec.rest, diags: rhs.diags + rec.diags }
                } else {
                    Parsed { val: Some(combined), rest: rhs.rest, diags: rhs.diags }
                }
            },
            None => Parsed {
                val: Some(e1),
                rest: rhs.rest,
                diags: rhs.diags + seq![DiagView::ExpectedExpression],
            },
        }
    } else {
        Parsed { val: Some(e1), rest: toks, diags: Seq::empty() }
    }
}

/// primary = literal | functionCall | Identifier | '(' expression ')'
pub open spec fn spec_parse_primary(toks: Seq<TokenView>) -> Parsed<Option<ExprView>>
    decreases toks.len(), 3int,
    via spec_parse_primary_decreases
{
    match peek_tv(toks, 0) {
        TokenView::Identifier(name) => {
            if tv_text(peek_tv(toks, 1)) == "("@ {
                let fc = spec_parse_function_call(toks);
                Parsed {
                    val: match fc.val {
                        Some(f) => Some(ExprView::FunctionCall(f)),
                        None => None,
                    },
                    rest: fc.rest,
                    diags: fc.diags,
                }
            } else {
                Parsed {
                    val: Some(ExprView::Variable(VariableView { name, decl: None })),
                    rest: tok_adv(toks, 1),
                    diags: Seq::empty(),
                }
            }
        },
        TokenView::IntegerLiteral(v) => Parsed {
            val: Some(ExprView::IntegerLiteral(v)),
            rest: tok_adv(toks, 1),
            diags: Seq::empty(),
        },
        TokenView::DecimalLiteral(v) => Parsed {
            val: Some(ExprView::DecimalLiteral(v)),
            rest: tok_adv(toks, 1),
            diags: Seq::empty(),
        },
        TokenView::StringLiteral(v) => Parsed {
            val: Some(ExprView::StringLiteral(v)),
            rest: tok_adv(toks, 1),
            diags: Seq::empty(),
        },
        TokenView::BooleanLiteral(v) => Parsed {
            val: Some(ExprView::BooleanLiteral(v)),
            rest: tok_adv(toks, 1),
            diags: Seq::empty(),
        },
        TokenView::NullLiteral => Parsed {
            val: Some(ExprView::NullLiteral),
            rest: tok_adv(toks, 1),
            diags: Seq::empty(),
        },
        t => {
            if tv_text(t) == "("@ {
                let e = spec_parse_expression(tok_adv(toks, 1));
                if tv_text(peek_tv(e.rest, 0)) == ")"@ {
                    Parsed { val: e.val, rest: tok_adv(e.rest, 1), diags: e.diags }
                } else {
                    Parsed {
                        val: None,
                        rest: e.rest,
                        diags: e.diags + seq![DiagView::ExpectedRightParen],
                    }
                }
            } else {
                Parsed { val: None, rest: toks, diags: seq![DiagView::ExpectedExpression] }
            }
        },
    }
}

/// functionCall = Identifier '(' (expression (',' expression)*)? ')'
pub open spec fn spec_parse_function_call(toks: Seq<TokenView>) -> Parsed<Option<FunctionCallView>>
    decreases toks.len(), 2int,
{
    match peek_tv(toks, 0) {
        TokenView::Identifier(fn_name) => {
            if tv_text(peek_tv(toks, 1)) == "("@ {
                let args = spec_parse_call_args(tok_adv(toks, 2), true);
                match args.val {
                    Some(ps) => Parsed {
                        val: Some(
                            FunctionCallView { name: fn_name, parameters: ps, decl: None },
                        ),
                        rest: args.rest,
                        diags: args.diags,
                    },
                    None => Parsed { val: None, rest: args.rest, diags: args.diags },
                }
            } else {
                Parsed { val: None, rest: tok_adv(toks, 2), diags: Seq::empty() }
            }
        },
        _ => Parsed { val: None, rest: tok_adv(toks, 1), diags: Seq::empty() },
    }
}

/// The argument list after the opening `(`. `check_close` holds on entry,
/// where a `)` closes an empty list; after a comma the next argument is
/// parsed unconditionally.
pub open spec fn spec_parse_call_args(toks: Seq<TokenView>, check_close: bool) -> Parsed<
    Option<Seq<ExprView>>,
>
    decreases toks.len(), 7int,
{
    if check_close && tv_text(peek_tv(toks, 0)) == ")"@ {
        Parsed { val: Some(Seq::empty()), rest: tok_adv(toks, 1), diags: Seq::empty() }
    } else {
        let e = spec_parse_expression(toks);
        match e.val {
            None => Parsed {
                val: None,
                rest: e.rest,
                diags: e.diags + seq![DiagView::ExpectedExpression],
            },
            Some(x) => {
                if tv_text(peek_tv(e.rest, 0)) == ")"@ {
                    Parsed { val: Some(seq![x]), rest: tok_adv(e.rest, 1), diags: e.diags }
                } else if tv_text(peek_tv(e.rest, 0)) == ","@ {
                    let r2 = tok_adv(e.rest, 1);
                    if r2.len() < toks.len() {
                        let rec = spec_parse_call_args(r2, false);
                        match rec.val {
                            Some(xs) => Parsed {
                                val: Some(seq![x] + xs),
                                rest: rec.rest,
                                diags: e.diags + rec.diags,
                            },
                            None => Parsed {
                                val: None,
                                rest: rec.rest,
                                diags: e.diags + rec.diags,
                            },
                        }
                    } else {
                        Parsed { val: Some(seq![x]), rest: r2, diags: e.diags }
                    }
                } else {
                    Parsed {
                        val: None,
                        rest: e.rest,
                        diags: e.diags + seq![DiagView::ExpectedCommaInCall],
                    }
                }
            },
        }
    }
}

/// Character-level facts about the separator and marker literals the
/// parser compares against.
pub proof fn lemma_sep_lits()
    ensures
        "{"@ == seq!['{'],
        "}"@ == seq!['}'],
        "("@ == seq!['('],
        ")"@ == seq![')'],
        ","@ == seq![','],
        ";"@ == seq![';'],
        ":"@ == seq![':'],
        "="@ == seq!['='],
        "fn"@ == seq!['f', 'n'],
        "let"@ == seq!['l', 'e', 't'],
        "any"@ == seq!['a', 'n', 'y'],
        ""@ == Seq::<char>::empty(),
{
    reveal_strlit("{");
    reveal_strlit("}");
    reveal_strlit("(");
    reveal_strlit(")");
    reveal_strlit(",");
    reveal_strlit(";");
    reveal_strlit(":");
    reveal_strlit("=");
    reveal_strlit("fn");
    reveal_strlit("let");
    reveal_strlit("any");
    reveal_strlit("");
    assert("{"@ =~= seq!['{']);
    assert("}"@ =~= seq!['}']);
    assert("("@ =~= seq!['(']);
    assert(")"@ =~= seq![')']);
    assert(","@ =~= seq![',']);
    assert(";"@ =~= seq![';']);
    assert(":"@ =~= seq![':']);
    assert("="@ =~= seq!['=']);
    assert("fn"@ =~= seq!['f', 'n']);
    assert("let"@ =~= seq!['l', 'e', 't']);
    assert("any"@ =~= seq!['a', 'n', 'y']);
    assert(""@ =~= Seq::<char>::empty());
}


/// Character-level facts about the operator literals of the precedence
/// table.
pub proof fn lemma_op_lits()
    ensures
        "="@ == seq!['='],
        "+="@ == seq!['+', '='],
        "-="@ == seq!['-', '='],
        "*="@ == seq!['*', '='],
        "/="@ == seq!['/', '='],
        "%="@ == seq!['%', '='],
        "&="@ == seq!['&', '='],
        "|="@ == seq!['|', '='],
        "^="@ == seq!['^', '='],
        "<<="@ == seq!['<', '<', '='],
        ">>="@ == seq!['>', '>', '='],
        "||"@ == seq!['|', '|'],
        "&&"@ == seq!['&', '&'],
        "|"@ == seq!['|'],
        "^"@ == seq!['^'],
        "&"@ == seq!['&'],
        "=="@ == seq!['=', '='],
        "!="@ == seq!['!', '='],
        ">"@ == seq!['>'],
        ">="@ == seq!['>', '='],
        "<"@ == seq!['<'],
        "<="@ == seq!['<', '='],
        "<<"@ == seq!['<', '<'],
        ">>"@ == seq!['>', '>'],
        "+"@ == seq!['+'],
        "-"@ == seq!['-'],
        "*"@ == seq!['*'],
        "/"@ == seq!['/'],
        "%"@ == seq!['%'],
{
    reveal_strlit("=");
    reveal_strlit("+=");
    reveal_strlit("-=");
    reveal_strlit("*=");
    reveal_strlit("/=");
    reveal_strlit("%=");
    reveal_strlit("&=");
    reveal_strlit("|=");
    reveal_strlit("^=");
    reveal_strlit("<<=");
    reveal_strlit(">>=");
    reveal_strlit("||");
    reveal_strlit("&&");
    reveal_strlit("|");
    reveal_strlit("^");
    reveal_strlit("&");
    reveal_strlit("==");
    reveal_strlit("!=");
    reveal_strlit(">");
    reveal_strlit(">=");
    reveal_strlit("<");
    reveal_strlit("<=");
    reveal_strlit("<<");
    reveal_strlit(">>");
    reveal_strlit("+");
    reveal_strlit("-");
    reveal_strlit("*");
    reveal_strlit("/");
    reveal_strlit("%");
    assert("="@ =~= seq!['=']);
    assert("+="@ =~= seq!['+', '=']);
    assert("-="@ =~= seq!['-', '=']);
    assert("*="@ =~= seq!['*', '=']);
    assert("/="@ =~= seq!['/', '=']);
    assert("%="@ =~= seq!['%', '=']);
    assert("&="@ =~= seq!['&', '=']);
    assert("|="@ =~= seq!['|', '=']);
    assert("^="@ =~= seq!['^', '=']);
    assert("<<="@ =~= seq!['<', '<', '=']);
    assert(">>="@ =~= seq!['>', '>', '=']);
    assert("||"@ =~= seq!['|', '|']);
    assert("&&"@ =~= seq!['&', '&']);
    assert("|"@ =~= seq!['|']);
    assert("^"@ =~= seq!['^']);
    assert("&"@ =~= seq!['&']);
    assert("=="@ =~= seq!['=', '=']);
    assert("!="@ =~= seq!['!', '=']);
    assert(">"@ =~= seq!['>']);
    assert(">="@ =~= seq!['>', '=']);
    assert("<"@ =~= seq!['<']);
    assert("<="@ =~= seq!['<', '=']);
    assert("<<"@ =~= seq!['<', '<']);
    assert(">>"@ =~= seq!['>', '>']);
    assert("+"@ =~= seq!['+']);
    assert("-"@ =~= seq!['-']);
    assert("*"@ =~= seq!['*']);
    assert("/"@ =~= seq!['/']);
    assert("%"@ =~= seq!['%']);
}


/// The separators and markers the parser tests never rank as operators,
/// and the disequalities among them the round-trip proofs rely on.
pub proof fn lemma_prec_of_seps()
    ensures
        op_prec("("@) == -1,
        op_prec(")"@) == -1,
        op_prec(","@) == -1,
        op_prec(";"@) == -1,
        op_prec("{"@) == -1,
        op_prec("}"@) == -1,
        op_prec(":"@) == -1,
        op_prec(""@) == -1,
        ";"@ != "("@,
        ")"@ != "("@,
        ","@ != "("@,
        ","@ != ")"@,
        ";"@ != ")"@,
        ";"@ != "}"@,
        "("@ != "}"@,
        "("@ != ")"@,
{
    reveal_strlit("=");
    reveal_strlit("+=");
    reveal_strlit("-=");
    reveal_strlit("*=");
    reveal_strlit("/=");
    reveal_strlit("%=");
    reveal_strlit("&=");
    reveal_strlit("|=");
    reveal_strlit("^=");
    reveal_strlit("<<=");
    reveal_strlit(">>=");
    reveal_strlit("||");
    reveal_strlit("&&");
    reveal_strlit("|");
    reveal_strlit("^");
    reveal_strlit("&");
    reveal_strlit("==");
    reveal_strlit("!=");
    reveal_strlit(">");
    reveal_strlit(">=");
    reveal_strlit("<");
    reveal_strlit("<=");
    reveal_strlit("<<");
    reveal_strlit(">>");
    reveal_strlit("+");
    reveal_strlit("-");
    reveal_strlit("*");
    reveal_strlit("/");
    reveal_strlit("%");
    reveal_strlit("(");
    reveal_strlit(")");
    reveal_strlit(",");
    reveal_strlit(";");
    reveal_strlit("{");
    reveal_strlit("}");
    reveal_strlit(":");
    reveal_strlit("");
    assert("="@.len() == 1);
    assert("="@[0] == '=');
    assert("+="@.len() == 2);
    assert("+="@[0] == '+');
    assert("+="@[1] == '=');
    assert("-="@.len() == 2);
    assert("-="@[0] == '-');
    assert("-="@[1] == '=');
    assert("*="@.len() == 2);
    assert("*="@[0] == '*');
    assert("*="@[1] == '=');
    assert("/="@.len() == 2);
    assert("/="@[0] == '/');
    assert("/="@[1] == '=');
    assert("%="@.len() == 2);
    assert("%="@[0] == '%');
    assert("%="@[1] == '=');
    assert("&="@.len() == 2);
    assert("&="@[0] == '&');
    assert("&="@[1] == '=');
    assert("|="@.len() == 2);
    assert("|="@[0] == '|');
    assert("|="@[1] == '=');
    assert("^="@.len() == 2);
    assert("^="@[0] == '^');
    assert("^="@[1] == '=');
    assert("<<="@.len() == 3);
    assert("<<="@[0] == '<');
    assert("<<="@[1] == '<');
    assert("<<="@[2] == '=');
    assert(">>="@.len() == 3);
    assert(">>="@[0] == '>');
    assert(">>="@[1] == '>');
    assert(">>="@[2] == '=');
    assert("||"@.len() == 2);
    assert("||"@[0] == '|');
    assert("||"@[1] == '|');
    assert("&&"@.len() == 2);
    assert("&&"@[0] == '&');
    assert("&&"@[1] == '&');
    assert("|"@.len() == 1);
    assert("|"@[0] == '|');
    assert("^"@.len() == 1);
    assert("^"@[0] == '^');
    assert("&"@.len() == 1);
    assert("&"@[0] == '&');
    assert("=="@.len() == 2);
    assert("=="@[0] == '=');
    assert("=="@[1] == '=');
    assert("!="@.len() == 2);
    assert("!="@[0] == '!');
    assert("!="@[1] == '=');
    assert(">"@.len() == 1);
    assert(">"@[0] == '>');
    assert(">="@.len() == 2);
    assert(">="@[0] == '>');
    assert(">="@[1] == '=');
    assert("<"@.len() == 1);
    assert("<"@[0] == '<');
    assert("<="@.len() == 2);
    assert("<="@[0] == '<');
    assert("<="@[1] == '=');
    assert("<<"@.len() == 2);
    assert("<<"@[0] == '<');
    assert("<<"@[1] == '<');
    assert(">>"@.len() == 2);
    assert(">>"@[0] == '>');
    assert(">>"@[1] == '>');
    assert("+"@.len() == 1);
    assert("+"@[0] == '+');
    assert("-"@.len() == 1);
    assert("-"@[0] == '-');
    assert("*"@.len() == 1);
    assert("*"@[0] == '*');
    assert("/"@.len() == 1);
    assert("/"@[0] == '/');
    assert("%"@.len() == 1);
    assert("%"@[0] == '%');
    assert("("@.len() == 1);
    assert("("@[0] == '(');
    assert(")"@.len() == 1);
    assert(")"@[0] == ')');
    assert(","@.len() == 1);
    assert(","@[0] == ',');
    assert(";"@.len() == 1);
    assert(";"@[0] == ';');
    assert("{"@.len() == 1);
    assert("{"@[0] == '{');
    assert("}"@.len() == 1);
    assert("}"@[0] == '}');
    assert(":"@.len() == 1);
    assert(":"@[0] == ':');
    assert(""@.len() == 0);
}

#[via_fn]
proof fn spec_parse_function_body_decreases(toks: Seq<TokenView>) {
    lemma_sep_lits();
    if tv_text(peek_tv(toks, 0)) == "{"@ {
        assert("{"@.len() == 1);
        assert(toks.len() == 0 ==> tv_text(peek_tv(toks, 0)).len() == 0);
        assert(toks.len() > 0);
        assert(tok_adv(toks, 1).len() < toks.len());
    }
}

#[via_fn]
proof fn spec_parse_primary_decreases(toks: Seq<TokenView>) {
    lemma_sep_lits();
    if tv_text(peek_tv(toks, 0)) == "("@ {
        assert("("@.len() == 1);
        assert(toks.len() == 0 ==> tv_text(peek_tv(toks, 0)).len() == 0);
        assert(toks.len() > 0);
        assert(tok_adv(toks, 1).len() < toks.len());
    }
}

} // verus!

verus! {

// ---------------------------------------------------------------------------
// Progress and consumption of the specification-level parser
// ---------------------------------------------------------------------------

/// The statement list never extends the input.
pub proof fn lemma_len_statement_list(toks: Seq<TokenView>)
    ensures
        spec_parse_statement_list(toks).rest.len() <= toks.len(),
    decreases toks.len(), 10int,
{
    if !(toks.len() == 0 || tv_text(peek_tv(toks, 0)) == "}"@) {
        lemma_len_statement(toks);
        let st = spec_parse_statement(toks);
        if st.rest.len() < toks.len() {
            lemma_len_statement_list(st.rest);
        }
    }
}

/// A statement never extends the input; one that parses consumed something;
/// at a statement-starting token even failure consumes something; anywhere
/// else nothing is consumed and no statement comes back.
pub proof fn lemma_len_statement(toks: Seq<TokenView>)
    ensures
        spec_parse_statement(toks).rest.len() <= toks.len(),
        spec_parse_statement(toks).val is Some ==> spec_parse_statement(toks).rest.len()
            < toks.len(),
        starts_statement(peek_tv(toks, 0)) ==> spec_parse_statement(toks).rest.len() < toks.len(),
        !starts_statement(peek_tv(toks, 0)) ==> spec_parse_statement(toks).rest == toks
            && spec_parse_statement(toks).val is None,
    decreases toks.len(), 9int,
{
    match peek_tv(toks, 0) {
        TokenView::Keyword(text) => {
            if text == "fn"@ {
                lemma_len_function_decl(toks);
            } else if text == "let"@ {
                lemma_len_variable_decl(toks);
            }
        },
        TokenView::Identifier(_) => lemma_len_statement_expr(toks),
        TokenView::BooleanLiteral(_) => lemma_len_statement_expr(toks),
        TokenView::StringLiteral(_) => lemma_len_statement_expr(toks),
        TokenView::IntegerLiteral(_) => lemma_len_statement_expr(toks),
        TokenView::DecimalLiteral(_) => lemma_len_statement_expr(toks),
        TokenView::Seperator(s) => {
            if s == "("@ {
                lemma_len_statement_expr(toks);
            }
        },
        _ => {},
    }
}

proof fn lemma_len_statement_expr(toks: Seq<TokenView>)
    ensures
        spec_parse_statement_expr(toks).rest.len() <= toks.len(),
        spec_parse_statement_expr(toks).val is Some ==> spec_parse_statement_expr(toks).rest.len()
            < toks.len(),
        starts_primary(peek_tv(toks, 0)) ==> spec_parse_statement_expr(toks).rest.len()
            < toks.len(),
        !starts_primary(peek_tv(toks, 0)) ==> spec_parse_statement_expr(toks).rest == toks
            && spec_parse_statement_expr(toks).val is None,
    decreases toks.len(), 8int,
{
    lemma_len_expression_statement(toks);
}

pub proof fn lemma_len_expression_statement(toks: Seq<TokenView>)
    ensures
        spec_parse_expression_statement(toks).rest.len() <= toks.len(),
        spec_parse_expression_statement(toks).val is Some
            ==> spec_parse_expression_statement(toks).rest.len() < toks.len(),
        starts_primary(peek_tv(toks, 0)) ==> spec_parse_expression_statement(toks).rest.len()
            < toks.len(),
        !starts_primary(peek_tv(toks, 0)) ==> spec_parse_expression_statement(toks).rest == toks
            && spec_parse_expression_statement(toks).val is None,
    decreases toks.len(), 7int,
{
    lemma_len_expression(toks);
}

pub proof fn lemma_len_variable_decl(toks: Seq<TokenView>)
    ensures
        spec_parse_variable_decl(toks).rest.len() <= toks.len(),
        toks.len() > 0 ==> spec_parse_variable_decl(toks).rest.len() < toks.len(),
    decreases toks.len(), 8int,
{
    match peek_tv(toks, 1) {
        TokenView::Identifier(name) => {
            let r2 = tok_adv(toks, 2);
            if tv_text(peek_tv(r2, 0)) == ":"@ {
                let r3 = tok_adv(r2, 1);
                match peek_tv(r3, 0) {
                    TokenView::Identifier(ty) => {
                        lemma_len_variable_init(name, ty, tok_adv(r3, 1));
                    },
                    _ => {},
                }
            } else {
                lemma_len_variable_init(name, "any"@, r2);
            }
        },
        _ => {},
    }
}

pub proof fn lemma_len_variable_init(name: Seq<char>, ty: Seq<char>, r: Seq<TokenView>)
    ensures
        spec_parse_variable_init(name, ty, r).rest.len() <= r.len(),
    decreases r.len(), 7int,
{
    if tv_text(peek_tv(r, 0)) == "="@ {
        lemma_len_expression(tok_adv(r, 1));
    }
}

pub proof fn lemma_len_function_decl(toks: Seq<TokenView>)
    ensures
        spec_parse_function_decl(toks).rest.len() <= toks.len(),
        toks.len() > 0 ==> spec_parse_function_decl(toks).rest.len() < toks.len(),
    decreases toks.len(), 8int,
{
    match peek_tv(toks, 1) {
        TokenView::Identifier(_) => {
            if tv_text(peek_tv(toks, 2)) == "("@ && tv_text(peek_tv(toks, 3)) == ")"@ {
                lemma_len_function_body(tok_adv(toks, 4));
            }
        },
        _ => {},
    }
}

pub proof fn lemma_len_function_body(toks: Seq<TokenView>)
    ensures
        spec_parse_function_body(toks).rest.len() <= toks.len(),
        spec_parse_function_body(toks).val is Some ==> spec_parse_function_body(toks).rest.len()
            < toks.len(),
    decreases toks.len(), 7int,
{
    lemma_sep_lits();
    if tv_text(peek_tv(toks, 0)) == "{"@ {
        assert("{"@.len() == 1);
        assert(toks.len() == 0 ==> tv_text(peek_tv(toks, 0)).len() == 0);
        assert(toks.len() > 0);
        lemma_len_statement_list(tok_adv(toks, 1));
    }
}

pub proof fn lemma_len_expression(toks: Seq<TokenView>)
    ensures
        spec_parse_expression(toks).rest.len() <= toks.len(),
        spec_parse_expression(toks).val is Some ==> spec_parse_expression(toks).rest.len()
            < toks.len(),
        starts_primary(peek_tv(toks, 0)) ==> spec_parse_expression(toks).rest.len() < toks.len(),
        !starts_primary(peek_tv(toks, 0)) ==> spec_parse_expression(toks).rest == toks
            && spec_parse_expression(toks).val is None,
    decreases toks.len(), 6int,
{
    lemma_len_binary(toks, 0);
}

pub proof fn lemma_len_binary(toks: Seq<TokenView>, prec: int)
    ensures
        spec_parse_binary(toks, prec).rest.len() <= toks.len(),
        spec_parse_binary(toks, prec).val is Some ==> spec_parse_binary(toks, prec).rest.len()
            < toks.len(),
        starts_primary(peek_tv(toks, 0)) ==> spec_parse_binary(toks, prec).rest.len() < toks.len(),
        !starts_primary(peek_tv(toks, 0)) ==> spec_parse_binary(toks, prec).rest == toks
            && spec_parse_binary(toks, prec).val is None,
    decreases toks.len(), 5int,
{
    lemma_len_primary(toks);
    let p = spec_parse_primary(toks);
    match p.val {
        Some(e1) => {
            lemma_len_binary_tail(e1, p.rest, prec);
        },
        None => {},
    }
}

pub proof fn lemma_len_binary_tail(e1: ExprView, toks: Seq<TokenView>, prec: int)
    ensures
        spec_binary_tail(e1, toks, prec).rest.len() <= toks.len(),
        spec_binary_tail(e1, toks, prec).val is Some,
    decreases toks.len(), 4int,
{
    let t = peek_tv(toks, 0);
    let tprec = op_prec(tv_text(t));
    if tprec > prec && t is Operator {
        lemma_len_binary(tok_adv(toks, 1), tprec);
        let rhs = spec_parse_binary(tok_adv(toks, 1), tprec);
        match rhs.val {
            Some(e2) => {
                if rhs.rest.len() < toks.len() {
                    let combined = ExprView::Binary(
                        BinaryView { op: tv_text(t), exp1: Box::new(e1), exp2: Box::new(e2) },
                    );
                    lemma_len_binary_tail(combined, rhs.rest, prec);
                }
            },
            None => {},
        }
    }
}

pub proof fn lemma_len_primary(toks: Seq<TokenView>)
    ensures
        spec_parse_primary(toks).rest.len() <= toks.len(),
        spec_parse_primary(toks).val is Some ==> spec_parse_primary(toks).rest.len() < toks.len(),
        starts_primary(peek_tv(toks, 0)) ==> spec_parse_primary(toks).rest.len() < toks.len(),
        !starts_primary(peek_tv(toks, 0)) ==> spec_parse_primary(toks).rest == toks
            && spec_parse_primary(toks).val is None,
    decreases toks.len(), 3int,
{
    lemma_sep_lits();
    match peek_tv(toks, 0) {
        TokenView::Identifier(_) => {
            if tv_text(peek_tv(toks, 1)) == "("@ {
                lemma_len_function_call(toks);
            }
        },
        TokenView::IntegerLiteral(_) => {},
        TokenView::DecimalLiteral(_) => {},
        TokenView::StringLiteral(_) => {},
        TokenView::BooleanLiteral(_) => {},
        TokenView::NullLiteral => {},
        t => {
            if tv_text(t) == "("@ {
                assert("("@.len() == 1);
                assert(toks.len() == 0 ==> tv_text(peek_tv(toks, 0)).len() == 0);
                assert(toks.len() > 0);
                lemma_len_expression(tok_adv(toks, 1));
            }
        },
    }
}

pub proof fn lemma_len_function_call(toks: Seq<TokenView>)
    ensures
        spec_parse_function_call(toks).rest.len() <= toks.len(),
        toks.len() > 0 ==> spec_parse_function_call(toks).rest.len() < toks.len(),
    decreases toks.len(), 2int,
{
    match peek_tv(toks, 0) {
        TokenView::Identifier(_) => {
            if tv_text(peek_tv(toks, 1)) == "("@ {
                lemma_len_call_args(tok_adv(toks, 2), true);
            }
        },
        _ => {},
    }
}

pub proof fn lemma_len_call_args(toks: Seq<TokenView>, check_close: bool)
    ensures
        spec_parse_call_args(toks, check_close).rest.len() <= toks.len(),
    decreases toks.len(), 7int,
{
    if check_close && tv_text(peek_tv(toks, 0)) == ")"@ {
    } else {
        lemma_len_expression(toks);
        let e = spec_parse_expression(toks);
        match e.val {
            Some(_) => {
                if tv_text(peek_tv(e.rest, 0)) == ","@ && !(tv_text(peek_tv(e.rest, 0))
                    == ")"@) {
                    let r2 = tok_adv(e.rest, 1);
                    if r2.len() < toks.len() {
                        lemma_len_call_args(r2, false);
                    }
                }
            },
            None => {},
        }
    }
}

} // verus!

verus! {

// ---------------------------------------------------------------------------
// The parser
// ---------------------------------------------------------------------------

pub open spec fn opt_stmt_view(r: Option<Statement>) -> Option<StmtView> {
    match r {
        Some(s) => Some(s@),
        None => None,
    }
}

pub open spec fn opt_expr_view(r: Option<Expression>) -> Option<ExprView> {
    match r {
        Some(e) => Some(e@),
        None => None,
    }
}

pub open spec fn opt_es_view(r: Option<ExpressionStatement>) -> Option<ExprView> {
    match r {
        Some(e) => Some(e@),
        None => None,
    }
}

pub open spec fn opt_vardecl_view(r: Option<VariableDecl>) -> Option<VariableDeclView> {
    match r {
        Some(d) => Some(d@),
        None => None,
    }
}

pub open spec fn opt_fndecl_view(r: Option<FunctionDecl>) -> Option<FunctionDeclView> {
    match r {
        Some(d) => Some(d@),
        None => None,
    }
}

pub open spec fn opt_block_view(r: Option<Block>) -> Option<Seq<StmtView>> {
    match r {
        Some(b) => Some(b@),
        None => None,
    }
}

pub open spec fn opt_call_view(r: Option<FunctionCall>) -> Option<FunctionCallView> {
    match r {
        Some(c) => Some(c@),
        None => None,
    }
}

/// Consuming `a` and then `b` tokens consumes `a + b` tokens.
pub proof fn lemma_tok_adv_chain(toks: Seq<TokenView>, a: int, b: int)
    requires
        a >= 0,
        b >= 0,
    ensures
        tok_adv(tok_adv(toks, a), b) == tok_adv(toks, a + b),
{
    if a <= toks.len() {
        if b <= toks.len() - a {
            assert(tok_adv(tok_adv(toks, a), b) =~= tok_adv(toks, a + b));
        } else {
            assert(tok_adv(tok_adv(toks, a), b) =~= Seq::<TokenView>::empty());
            assert(tok_adv(toks, a + b) =~= Seq::<TokenView>::empty());
        }
    } else {
        assert(tok_adv(toks, a) =~= Seq::<TokenView>::empty());
        assert(tok_adv(tok_adv(toks, a), b) =~= Seq::<TokenView>::empty());
        assert(tok_adv(toks, a + b) =~= Seq::<TokenView>::empty());
    }
}

/// What one `next` on the scanner leaves equals consuming one token.
pub proof fn lemma_adv1(pre: Seq<TokenView>, post: Seq<TokenView>)
    requires
        pre.len() > 0 ==> post == pre.drop_first(),
        pre.len() == 0 ==> post == Seq::<TokenView>::empty(),
    ensures
        post == tok_adv(pre, 1),
{
    if pre.len() > 0 {
        assert(pre.drop_first() =~= tok_adv(pre, 1));
    } else {
        assert(tok_adv(pre, 1) =~= Seq::<TokenView>::empty());
    }
}

proof fn lemma_add_empty_dv(s: Seq<DiagView>)
    ensures
        s + Seq::<DiagView>::empty() == s,
        Seq::<DiagView>::empty() + s == s,
{
    assert(s + Seq::<DiagView>::empty() =~= s);
    assert(Seq::<DiagView>::empty() + s =~= s);
}

/// Whether a statement can start at this token.
fn token_starts_statement(t: &Token) -> (b: bool)
    ensures
        b == starts_statement(t@),
{
    match t {
        Token::Keyword(s) => str_eq(s.as_str(), "fn") || str_eq(s.as_str(), "let"),
        Token::Identifier(_) => true,
        Token::BooleanLiteral(_) => true,
        Token::StringLiteral(_) => true,
        Token::IntegerLiteral(_) => true,
        Token::DecimalLiteral(_) => true,
        Token::Seperator(s) => str_eq(s.as_str(), "("),
        _ => false,
    }
}

/// The syntactic analyzer: consumes a scanner, produces the program's AST,
/// and collects the syntactic diagnostics in `diags`.
pub struct Parser {
    pub scanner: Scanner,
    pub diags: Vec<Diagnostic>,
}

/// What every parse routine preserves: a sound scanner, and the combined
/// lexical diagnostics (already collected plus still to come).
pub open spec fn parser_frame(pre: Parser, post: Parser) -> bool {
    &&& post.scanner.wf()
    &&& post.scanner.committed_diags() == pre.scanner.committed_diags()
}

impl Parser {
    /// The tokens not yet consumed.
    pub open spec fn toks(self) -> Seq<TokenView> {
        self.scanner.toks()
    }

    pub open spec fn wf(self) -> bool {
        self.scanner.wf()
    }

    pub fn new(scanner: Scanner) -> (r: Parser)
        ensures
            r.scanner == scanner,
            r.diags@ =~= Seq::<Diagnostic>::empty(),
    {
        Self { scanner, diags: Vec::new() }
    }

    /// The operator precedence table; `-1` for a non-operator.
    fn get_spec(&self, op: &str) -> (r: i32)
        ensures
            r as int == op_prec(op@),
    {
        if str_eq(op, "=") || str_eq(op, "+=") || str_eq(op, "-=") || str_eq(op, "*=") || str_eq(
            op,
            "/=",
        ) || str_eq(op, "%=") || str_eq(op, "&=") || str_eq(op, "|=") || str_eq(op, "^=")
            || str_eq(op, "<<=") || str_eq(op, ">>=") {
            2
        } else if str_eq(op, "||") {
            4
        } else if str_eq(op, "&&") {
            5
        } else if str_eq(op, "|") {
            6
        } else if str_eq(op, "^") {
            7
        } else if str_eq(op, "&") {
            8
        } else if str_eq(op, "==") || str_eq(op, "!=") {
            9
        } else if str_eq(op, ">") || str_eq(op, ">=") || str_eq(op, "<") || str_eq(op, "<=") {
            10
        } else if str_eq(op, "<<") || str_eq(op, ">>") {
            11
        } else if str_eq(op, "+") || str_eq(op, "-") {
            12
        } else if str_eq(op, "*") || str_eq(op, "/") || str_eq(op, "%") {
            13
        } else {
            -1
        }
    }

    /// prog = statementList? EOF
    pub fn parse_prog(&mut self) -> (p: Prog)
        requires
            old(self).wf(),
        ensures
            parser_frame(*old(self), *final(self)),
            ({
                let out = spec_parse_prog(old(self).toks());
                &&& p@ == out.val
                &&& final(self).toks() == out.rest
                &&& diags_view(final(self).diags@) == diags_view(old(self).diags@) + out.diags
            }),
        decreases old(self).toks().len(), 11int,
    {
        let stmts = self.parse_statement_list();
        Prog::new(stmts)
    }

    fn parse_statement_list(&mut self) -> (stmts: Vec<Statement>)
        requires
            old(self).wf(),
        ensures
            parser_frame(*old(self), *final(self)),
            ({
                let out = spec_parse_statement_list(old(self).toks());
                &&& view_stmts(stmts@) == out.val
                &&& final(self).toks() == out.rest
                &&& diags_view(final(self).diags@) == diags_view(old(self).diags@) + out.diags
            }),
        decreases old(self).toks().len(), 10int,
    {
        let mut stmts: Vec<Statement> = Vec::new();
        proof {
            crate::scanner::lemma_toks_no_eof(old(self).scanner);
        }
        proof {
            let full = spec_parse_statement_list(old(self).toks());
            assert(view_stmts(stmts@) =~= Seq::<StmtView>::empty());
            assert(view_stmts(stmts@) + full.val =~= full.val);
        }
        loop
            invariant_except_break
                ({
                    let full = spec_parse_statement_list(old(self).toks());
                    let cur = spec_parse_statement_list(self.toks());
                    &&& full.val == view_stmts(stmts@) + cur.val
                    &&& full.rest == cur.rest
                    &&& diags_view(old(self).diags@) + full.diags == diags_view(self.diags@)
                        + cur.diags
                }),
            invariant
                self.wf(),
                self.toks().len() <= old(self).toks().len(),
                parser_frame(*old(self), *self),
            ensures
                self.wf(),
                parser_frame(*old(self), *self),
                ({
                    let full = spec_parse_statement_list(old(self).toks());
                    &&& view_stmts(stmts@) == full.val
                    &&& self.toks() == full.rest
                    &&& diags_view(self.diags@) == diags_view(old(self).diags@) + full.diags
                }),
            decreases self.toks().len(),
        {
            let ghost head_toks = self.toks();
            let ghost head_diags = self.diags@;
            let ghost full = spec_parse_statement_list(old(self).toks());
            let ghost cur = spec_parse_statement_list(head_toks);
            let token = self.scanner.peek();
            proof {
                crate::scanner::lemma_toks_no_eof(self.scanner);
            }
            let is_end = match &token {
                Token::EOF => true,
                _ => false,
            };
            if is_end {
                proof {
                    assert(head_toks.len() == 0);
                    assert(cur.val =~= Seq::<StmtView>::empty());
                    assert(view_stmts(stmts@) + cur.val =~= view_stmts(stmts@));
                    lemma_add_empty_dv(diags_view(self.diags@));
                    assert(diags_view(old(self).diags@) + full.diags =~= diags_view(self.diags@));
                }
                break ;
            }
            if str_eq(token.text(), "}") {
                proof {
                    assert(tv_text(peek_tv(head_toks, 0)) == "}"@);
                    assert(cur.val =~= Seq::<StmtView>::empty());
                    assert(view_stmts(stmts@) + cur.val =~= view_stmts(stmts@));
                    lemma_add_empty_dv(diags_view(self.diags@));
                    assert(diags_view(old(self).diags@) + full.diags =~= diags_view(self.diags@));
                }
                break ;
            }
            proof {
                assert(head_toks.len() > 0);
                assert(!(tv_text(peek_tv(head_toks, 0)) == "}"@));
                lemma_len_statement(head_toks);
            }
            let can_progress = token_starts_statement(&token);
            let stmt = self.parse_statement();
            let ghost st = spec_parse_statement(head_toks);
            match stmt {
                Some(s) => {
                    proof {
                        assert(st.rest.len() < head_toks.len());
                    }
                    let ghost prev_stmts = stmts@;
                    stmts.push(s);
                    proof {
                        lemma_view_stmts_push(prev_stmts, stmts@.last());
                        let rec = spec_parse_statement_list(st.rest);
                        assert(cur.val == seq![st.val->0] + rec.val);
                        assert(view_stmts(stmts@) + rec.val =~= view_stmts(prev_stmts) + (seq![
                            st.val->0,
                        ] + rec.val));
                        assert((diags_view(head_diags) + st.diags) + rec.diags =~= diags_view(
                        head_diags) + (st.diags + rec.diags));
                    }
                },
                None => {
                    let ghost prev_diags = self.diags@;
                    self.diags.push(Diagnostic::StatementNotRecognized);
                    proof {
                        lemma_diags_view_push(prev_diags, Diagnostic::StatementNotRecognized);
                        assert(diags_view(self.diags@) =~= diags_view(prev_diags) + seq![
                            DiagView::StatementNotRecognized,
                        ]);
                    }
                    if !can_progress {
                        proof {
                            assert(st.rest == head_toks);
                            assert(cur.val =~= Seq::<StmtView>::empty());
                            assert(view_stmts(stmts@) + cur.val =~= view_stmts(stmts@));
                            assert(cur.diags =~= st.diags + seq![DiagView::StatementNotRecognized]);
                            assert((diags_view(head_diags) + st.diags) + seq![
                                DiagView::StatementNotRecognized,
                            ] =~= diags_view(head_diags) + (st.diags + seq![
                                DiagView::StatementNotRecognized,
                            ]));
                            assert(diags_view(self.diags@) =~= diags_view(head_diags) + cur.diags);
                            assert(diags_view(old(self).diags@) + full.diags =~= diags_view(
                            self.diags@));
                        }
                        break ;
                    }
                    proof {
                        assert(st.rest.len() < head_toks.len());
                        let rec = spec_parse_statement_list(st.rest);
                        assert(cur.val == rec.val);
                        assert(cur.diags =~= st.diags + seq![DiagView::StatementNotRecognized]
                            + rec.diags);
                        assert(((diags_view(head_diags) + st.diags) + seq![
                            DiagView::StatementNotRecognized,
                        ]) + rec.diags =~= diags_view(head_diags) + ((st.diags + seq![
                            DiagView::StatementNotRecognized,
                        ]) + rec.diags));
                    }
                },
            }
        }
        stmts
    }

    /// statement = functionDecl | variableDecl | expressionStatement, told
    /// apart by the first token (and, for expressions, the second).
    fn parse_statement(&mut self) -> (r: Option<Statement>)
        requires
            old(self).wf(),
        ensures
            parser_frame(*old(self), *final(self)),
            ({
                let out = spec_parse_statement(old(self).toks());
                &&& opt_stmt_view(r) == out.val
                &&& final(self).toks() == out.rest
                &&& diags_view(final(self).diags@) == diags_view(old(self).diags@) + out.diags
            }),
        decreases old(self).toks().len(), 9int,
    {
        let t = self.scanner.peek();
        proof {
            crate::scanner::lemma_toks_no_eof(self.scanner);
        }
        match t {
            Token::Keyword(text) => {
                if str_eq(text.as_str(), "fn") {
                    let fd = self.parse_function_decl();
                    match fd {
                        Some(f) => Some(Statement::FunctionDecl(f)),
                        None => None,
                    }
                } else if str_eq(text.as_str(), "let") {
                    let vd = self.parse_variable_decl();
                    match vd {
                        Some(v) => Some(Statement::VariableDecl(v)),
                        None => None,
                    }
                } else {
                    let ghost prev = self.diags@;
                    self.diags.push(Diagnostic::UnexpectedStatementStart);
                    proof {
                        lemma_diags_view_push(prev, Diagnostic::UnexpectedStatementStart);
                        assert(diags_view(self.diags@) =~= diags_view(prev) + seq![
                            DiagView::UnexpectedStatementStart,
                        ]);
                    }
                    None
                }
            },
            Token::Identifier(_) => self.parse_statement_expr(),
            Token::BooleanLiteral(_) => self.parse_statement_expr(),
            Token::StringLiteral(_) => self.parse_statement_expr(),
            Token::IntegerLiteral(_) => self.parse_statement_expr(),
            Token::DecimalLiteral(_) => self.parse_statement_expr(),
            Token::Seperator(s) => {
                if str_eq(s.as_str(), "(") {
                    self.parse_statement_expr()
                } else {
                    let ghost prev = self.diags@;
                    self.diags.push(Diagnostic::UnexpectedStatementStart);
                    proof {
                        lemma_diags_view_push(prev, Diagnostic::UnexpectedStatementStart);
                        assert(diags_view(self.diags@) =~= diags_view(prev) + seq![
                            DiagView::UnexpectedStatementStart,
                        ]);
                    }
                    None
                }
            },
            _ => {
                let ghost prev = self.diags@;
                self.diags.push(Diagnostic::UnexpectedStatementStart);
                proof {
                    lemma_diags_view_push(prev, Diagnostic::UnexpectedStatementStart);
                    assert(diags_view(self.diags@) =~= diags_view(prev) + seq![
                        DiagView::UnexpectedStatementStart,
                    ]);
                }
                None
            },
        }
    }

    /// An expression statement wrapped as a statement.
    fn parse_statement_expr(&mut self) -> (r: Option<Statement>)
        requires
            old(self).wf(),
        ensures
            parser_frame(*old(self), *final(self)),
            ({
                let out = spec_parse_statement_expr(old(self).toks());
                &&& opt_stmt_view(r) == out.val
                &&& final(self).toks() == out.rest
                &&& diags_view(final(self).diags@) == diags_view(old(self).diags@) + out.diags
            }),
        decreases old(self).toks().len(), 8int,
    {
        let es = self.parse_expression_statement();
        match es {
            Some(e) => Some(Statement::ExpressionStatement(e)),
            None => None,
        }
    }
}

} // verus!

verus! {

/// Peeking after consuming `k` tokens peeks at position `k`.
pub proof fn lemma_peek_adv(toks: Seq<TokenView>, k: int)
    requires
        k >= 0,
    ensures
        peek_tv(tok_adv(toks, k), 0) == peek_tv(toks, k),
{
    if k <= toks.len() && toks.len() > k {
        assert(tok_adv(toks, k)[0] == toks[k]);
    }
}

impl Parser {
    /// variableDecl = 'let' Identifier (':' Identifier)? ('=' expression)? ';'
    fn parse_variable_decl(&mut self) -> (r: Option<VariableDecl>)
        requires
            old(self).wf(),
        ensures
            parser_frame(*old(self), *final(self)),
            ({
                let out = spec_parse_variable_decl(old(self).toks());
                &&& opt_vardecl_view(r) == out.val
                &&& final(self).toks() == out.rest
                &&& diags_view(final(self).diags@) == diags_view(old(self).diags@) + out.diags
            }),
        decreases old(self).toks().len(), 8int,
    {
        let ghost toks0 = self.toks();
        self.scanner.next();
        proof {
            lemma_adv1(toks0, self.toks());
        }
        let t = self.scanner.next();
        proof {
            lemma_adv1(tok_adv(toks0, 1), self.toks());
            lemma_tok_adv_chain(toks0, 1, 1);
            lemma_peek_adv(toks0, 1);
        }
        match t {
            Token::Identifier(text) => {
                let ghost r2 = tok_adv(toks0, 2);
                let t1 = self.scanner.peek();
                if str_eq(t1.text(), ":") {
                    self.scanner.next();
                    proof {
                        lemma_adv1(r2, self.toks());
                    }
                    let t2 = self.scanner.peek();
                    match t2 {
                        Token::Identifier(ty) => {
                            self.scanner.next();
                            proof {
                                lemma_adv1(tok_adv(r2, 1), self.toks());
                            }
                            let r = self.finish_variable_decl(text, ty);
                            proof {
                                lemma_add_empty_dv(
                                    spec_parse_variable_init(
                                        text@,
                                        ty@,
                                        tok_adv(tok_adv(r2, 1), 1),
                                    ).diags,
                                );
                            }
                            r
                        },
                        _ => {
                            let ghost prev = self.diags@;
                            self.diags.push(Diagnostic::ExpectedTypeAnnotation);
                            proof {
                                lemma_diags_view_push(prev, Diagnostic::ExpectedTypeAnnotation);
                                assert(diags_view(self.diags@) =~= diags_view(prev) + seq![
                                    DiagView::ExpectedTypeAnnotation,
                                ]);
                            }
                            None
                        },
                    }
                } else {
                    let ty = String::from_str("any");
                    let r = self.finish_variable_decl(text, ty);
                    proof {
                        lemma_add_empty_dv(spec_parse_variable_init(text@, "any"@, r2).diags);
                    }
                    r
                }
            },
            _ => {
                let ghost prev = self.diags@;
                self.diags.push(Diagnostic::ExpectedVariableName);
                proof {
                    lemma_diags_view_push(prev, Diagnostic::ExpectedVariableName);
                    assert(diags_view(self.diags@) =~= diags_view(prev) + seq![
                        DiagView::ExpectedVariableName,
                    ]);
                }
                None
            },
        }
    }

    /// The initializer and terminating `;` of a variable declaration.
    fn finish_variable_decl(&mut self, name: String, ty: String) -> (r: Option<VariableDecl>)
        requires
            old(self).wf(),
        ensures
            parser_frame(*old(self), *final(self)),
            ({
                let out = spec_parse_variable_init(name@, ty@, old(self).toks());
                &&& opt_vardecl_view(r) == out.val
                &&& final(self).toks() == out.rest
                &&& diags_view(final(self).diags@) == diags_view(old(self).diags@) + out.diags
            }),
        decreases old(self).toks().len(), 7int,
    {
        let ghost r0 = self.toks();
        let ghost d0 = self.diags@;
        let t1 = self.scanner.peek();
        let mut init: Option<Expression> = None;
        if str_eq(t1.text(), "=") {
            self.scanner.next();
            proof {
                lemma_adv1(r0, self.toks());
            }
            init = self.parse_expression();
        }
        let t2 = self.scanner.peek();
        if str_eq(t2.text(), ";") {
            self.scanner.next();
            proof {
                if tv_text(peek_tv(r0, 0)) == "="@ {
                    let e = spec_parse_expression(tok_adv(r0, 1));
                    lemma_adv1(e.rest, self.toks());
                } else {
                    lemma_adv1(r0, self.toks());
                    lemma_add_empty_dv(diags_view(self.diags@));
                }
            }
            let init_expression: Option<Box<Expression>> = match init {
                Some(e) => Some(Box::new(e)),
                None => None,
            };
            return Some(VariableDecl::new(name, ty, init_expression));
        }
        let ghost prev = self.diags@;
        self.diags.push(Diagnostic::ExpectedSemicolon);
        proof {
            lemma_diags_view_push(prev, Diagnostic::ExpectedSemicolon);
            if tv_text(peek_tv(r0, 0)) == "="@ {
                let e = spec_parse_expression(tok_adv(r0, 1));
                assert(diags_view(self.diags@) =~= (diags_view(d0) + e.diags) + seq![
                    DiagView::ExpectedSemicolon,
                ]);
                assert((diags_view(d0) + e.diags) + seq![DiagView::ExpectedSemicolon]
                    =~= diags_view(d0) + (e.diags + seq![DiagView::ExpectedSemicolon]));
            } else {
                assert(diags_view(self.diags@) =~= diags_view(d0) + seq![
                    DiagView::ExpectedSemicolon,
                ]);
            }
        }
        None
    }

    /// functionDecl = 'fn' Identifier '(' ')' functionBody
    fn parse_function_decl(&mut self) -> (r: Option<FunctionDecl>)
        requires
            old(self).wf(),
        ensures
            parser_frame(*old(self), *final(self)),
            ({
                let out = spec_parse_function_decl(old(self).toks());
                &&& opt_fndecl_view(r) == out.val
                &&& final(self).toks() == out.rest
                &&& diags_view(final(self).diags@) == diags_view(old(self).diags@) + out.diags
            }),
        decreases old(self).toks().len(), 8int,
    {
        let ghost toks0 = self.toks();
        self.scanner.next();
        proof {
            lemma_adv1(toks0, self.toks());
        }
        let t = self.scanner.next();
        proof {
            lemma_adv1(tok_adv(toks0, 1), self.toks());
            lemma_tok_adv_chain(toks0, 1, 1);
            lemma_peek_adv(toks0, 1);
        }
        match t {
            Token::Identifier(fn_name) => {
                let t1 = self.scanner.next();
                proof {
                    lemma_adv1(tok_adv(toks0, 2), self.toks());
                    lemma_tok_adv_chain(toks0, 2, 1);
                    lemma_peek_adv(toks0, 2);
                }
                if str_eq(t1.text(), "(") {
                    let t2 = self.scanner.next();
                    proof {
                        lemma_adv1(tok_adv(toks0, 3), self.toks());
                        lemma_tok_adv_chain(toks0, 3, 1);
                        lemma_peek_adv(toks0, 3);
                    }
                    if str_eq(t2.text(), ")") {
                        let b = self.parse_function_body();
                        match b {
                            Some(body) => {
                                proof {
                                    lemma_add_empty_dv(diags_view(self.diags@));
                                }
                                Some(FunctionDecl::new(fn_name, body))
                            },
                            None => {
                                let ghost prev = self.diags@;
                                self.diags.push(Diagnostic::ExpectedFunctionBody);
                                proof {
                                    lemma_diags_view_push(prev, Diagnostic::ExpectedFunctionBody);
                                    let bs = spec_parse_function_body(tok_adv(toks0, 4));
                                    assert(diags_view(self.diags@) =~= (diags_view(old(self).diags@)
                                        + bs.diags) + seq![DiagView::ExpectedFunctionBody]);
                                    assert((diags_view(old(self).diags@) + bs.diags) + seq![
                                        DiagView::ExpectedFunctionBody,
                                    ] =~= diags_view(old(self).diags@) + (bs.diags + seq![
                                        DiagView::ExpectedFunctionBody,
                                    ]));
                                }
                                None
                            },
                        }
                    } else {
                        let ghost prev = self.diags@;
                        self.diags.push(Diagnostic::ExpectedRightParen);
                        proof {
                            lemma_diags_view_push(prev, Diagnostic::ExpectedRightParen);
                            assert(diags_view(self.diags@) =~= diags_view(prev) + seq![
                                DiagView::ExpectedRightParen,
                            ]);
                        }
                        None
                    }
                } else {
                    let ghost prev = self.diags@;
                    self.diags.push(Diagnostic::ExpectedLeftParen);
                    proof {
                        lemma_diags_view_push(prev, Diagnostic::ExpectedLeftParen);
                        assert(diags_view(self.diags@) =~= diags_view(prev) + seq![
                            DiagView::ExpectedLeftParen,
                        ]);
                    }
                    None
                }
            },
            _ => {
                let ghost prev = self.diags@;
                self.diags.push(Diagnostic::ExpectedFunctionName);
                proof {
                    lemma_diags_view_push(prev, Diagnostic::ExpectedFunctionName);
                    assert(diags_view(self.diags@) =~= diags_view(prev) + seq![
                        DiagView::ExpectedFunctionName,
                    ]);
                }
                None
            },
        }
    }

    /// functionBody = '{' statementList? '}'
    fn parse_function_body(&mut self) -> (r: Option<Block>)
        requires
            old(self).wf(),
        ensures
            parser_frame(*old(self), *final(self)),
            ({
                let out = spec_parse_function_body(old(self).toks());
                &&& opt_block_view(r) == out.val
                &&& final(self).toks() == out.rest
                &&& diags_view(final(self).diags@) == diags_view(old(self).diags@) + out.diags
            }),
        decreases old(self).toks().len(), 7int,
    {
        let ghost toks0 = self.toks();
        let t = self.scanner.peek();
        if str_eq(t.text(), "{") {
            proof {
                lemma_sep_lits();
                assert("{"@.len() == 1);
                assert(toks0.len() > 0);
            }
            self.scanner.next();
            proof {
                lemma_adv1(toks0, self.toks());
                assert(self.toks().len() < toks0.len());
            }
            let stmts = self.parse_statement_list();
            let ghost l = spec_parse_statement_list(tok_adv(toks0, 1));
            let t2 = self.scanner.next();
            proof {
                lemma_adv1(l.rest, self.toks());
                lemma_peek_adv(l.rest, 0);
            }
            if str_eq(t2.text(), "}") {
                proof {
                    lemma_add_empty_dv(diags_view(self.diags@));
                }
                return Some(Block::new(stmts));
            }
            let ghost prev = self.diags@;
            self.diags.push(Diagnostic::ExpectedRightBrace);
            proof {
                lemma_diags_view_push(prev, Diagnostic::ExpectedRightBrace);
                assert(diags_view(self.diags@) =~= (diags_view(old(self).diags@) + l.diags) + seq![
                    DiagView::ExpectedRightBrace,
                ]);
                assert((diags_view(old(self).diags@) + l.diags) + seq![
                    DiagView::ExpectedRightBrace,
                ] =~= diags_view(old(self).diags@) + (l.diags + seq![
                    DiagView::ExpectedRightBrace,
                ]));
            }
            None
        } else {
            let ghost prev = self.diags@;
            self.diags.push(Diagnostic::ExpectedLeftBrace);
            proof {
                lemma_diags_view_push(prev, Diagnostic::ExpectedLeftBrace);
                assert(diags_view(self.diags@) =~= diags_view(prev) + seq![
                    DiagView::ExpectedLeftBrace,
                ]);
            }
            None
        }
    }

    /// expressionStatement = expression ';'
    fn parse_expression_statement(&mut self) -> (r: Option<ExpressionStatement>)
        requires
            old(self).wf(),
        ensures
            parser_frame(*old(self), *final(self)),
            ({
                let out = spec_parse_expression_statement(old(self).toks());
                &&& opt_es_view(r) == out.val
                &&& final(self).toks() == out.rest
                &&& diags_view(final(self).diags@) == diags_view(old(self).diags@) + out.diags
            }),
        decreases old(self).toks().len(), 7int,
    {
        let ghost toks0 = self.toks();
        let exp = self.parse_expression();
        let ghost e = spec_parse_expression(toks0);
        match exp {
            Some(exp) => {
                let t = self.scanner.peek();
                if str_eq(t.text(), ";") {
                    self.scanner.next();
                    proof {
                        lemma_adv1(e.rest, self.toks());
                        lemma_peek_adv(e.rest, 0);
                    }
                    Some(ExpressionStatement::new(exp))
                } else {
                    let ghost prev = self.diags@;
                    self.diags.push(Diagnostic::ExpectedSemicolon);
                    proof {
                        lemma_diags_view_push(prev, Diagnostic::ExpectedSemicolon);
                        assert(diags_view(self.diags@) =~= (diags_view(old(self).diags@) + e.diags)
                            + seq![DiagView::ExpectedSemicolon]);
                        assert((diags_view(old(self).diags@) + e.diags) + seq![
                            DiagView::ExpectedSemicolon,
                        ] =~= diags_view(old(self).diags@) + (e.diags + seq![
                            DiagView::ExpectedSemicolon,
                        ]));
                    }
                    None
                }
            },
            None => {
                let ghost prev = self.diags@;
                self.diags.push(Diagnostic::ExpectedExpression);
                proof {
                    lemma_diags_view_push(prev, Diagnostic::ExpectedExpression);
                    assert(diags_view(self.diags@) =~= (diags_view(old(self).diags@) + e.diags)
                        + seq![DiagView::ExpectedExpression]);
                    assert((diags_view(old(self).diags@) + e.diags) + seq![
                        DiagView::ExpectedExpression,
                    ] =~= diags_view(old(self).diags@) + (e.diags + seq![
                        DiagView::ExpectedExpression,
                    ]));
                }
                None
            },
        }
    }

    /// expression = primary (binOp primary)*
    fn parse_expression(&mut self) -> (r: Option<Expression>)
        requires
            old(self).wf(),
        ensures
            parser_frame(*old(self), *final(self)),
            ({
                let out = spec_parse_expression(old(self).toks());
                &&& opt_expr_view(r) == out.val
                &&& final(self).toks() == out.rest
                &&& diags_view(final(self).diags@) == diags_view(old(self).diags@) + out.diags
            }),
        decreases old(self).toks().len(), 6int,
    {
        self.parse_binary(0)
    }

    /// Precedence climbing: parse one primary, then fold in every operator
    /// binding tighter than `prec`, parsing each right-hand side at that
    /// operator's precedence. A failed right-hand side is reported and ends
    /// the climb with the expression built so far.
    #[verifier::loop_isolation(false)]
    fn parse_binary(&mut self, prec: i32) -> (r: Option<Expression>)
        requires
            old(self).wf(),
        ensures
            parser_frame(*old(self), *final(self)),
            ({
                let out = spec_parse_binary(old(self).toks(), prec as int);
                &&& opt_expr_view(r) == out.val
                &&& final(self).toks() == out.rest
                &&& diags_view(final(self).diags@) == diags_view(old(self).diags@) + out.diags
            }),
        decreases old(self).toks().len(), 5int,
    {
        let ghost toks0 = self.toks();
        let ghost d0 = self.diags@;
        let exp1_opt = self.parse_primary();
        let ghost p = spec_parse_primary(toks0);
        proof {
            lemma_len_primary(toks0);
        }
        match exp1_opt {
            Some(first) => {
                let mut exp1 = first;
                loop
                    invariant
                        self.wf(),
                        parser_frame(*old(self), *self),
                        self.toks().len() <= toks0.len(),
                        p.val is Some,
                        spec_parse_binary(toks0, prec as int) == (Parsed {
                            val: spec_binary_tail(p.val->0, p.rest, prec as int).val,
                            rest: spec_binary_tail(p.val->0, p.rest, prec as int).rest,
                            diags: p.diags + spec_binary_tail(p.val->0, p.rest, prec as int).diags,
                        }),
                        ({
                            let fullt = spec_binary_tail(p.val->0, p.rest, prec as int);
                            let curt = spec_binary_tail(exp1@, self.toks(), prec as int);
                            &&& fullt.val == curt.val
                            &&& fullt.rest == curt.rest
                            &&& diags_view(d0) + p.diags + fullt.diags == diags_view(self.diags@)
                                + curt.diags
                        }),
                    decreases self.toks().len(),
                {
                    let ghost cur_toks = self.toks();
                    let ghost dcur = self.diags@;
                    let ghost curt = spec_binary_tail(exp1@, cur_toks, prec as int);
                    let t = self.scanner.peek();
                    let tprec = self.get_spec(t.text());
                    let is_op = match &t {
                        Token::Operator(_) => true,
                        _ => false,
                    };
                    if !(tprec > prec && is_op) {
                        proof {
                            let fullt = spec_binary_tail(p.val->0, p.rest, prec as int);
                            assert(curt.val == Some(exp1@));
                            assert(curt.rest == cur_toks);
                            assert(curt.diags =~= Seq::<DiagView>::empty());
                            lemma_add_empty_dv(curt.diags);
                            assert(diags_view(self.diags@) + curt.diags =~= diags_view(
                            self.diags@));
                            assert(diags_view(self.diags@) =~= (diags_view(d0) + p.diags)
                                + fullt.diags);
                            assert((diags_view(d0) + p.diags) + fullt.diags =~= diags_view(d0) + (
                            p.diags + fullt.diags));
                        }
                        return Some(exp1);
                    }
                    let op = match t {
                        Token::Operator(op) => op,
                        _ => String::new(),
                    };
                    proof {
                        assert(cur_toks.len() > 0);
                    }
                    self.scanner.next();
                    proof {
                        lemma_adv1(cur_toks, self.toks());
                        assert(self.toks().len() < cur_toks.len());
                    }
                    let exp2 = self.parse_binary(tprec);
                    let ghost rhs = spec_parse_binary(tok_adv(cur_toks, 1), tprec as int);
                    proof {
                        lemma_len_binary(tok_adv(cur_toks, 1), tprec as int);
                    }
                    match exp2 {
                        Some(e2) => {
                            exp1 = Expression::Binary(
                                Binary::new(op, Box::new(exp1), Box::new(e2)),
                            );
                            proof {
                                assert(rhs.rest.len() < cur_toks.len());
                                let rec = spec_binary_tail(exp1@, rhs.rest, prec as int);
                                assert(curt.val == rec.val);
                                assert(curt.rest == rec.rest);
                                assert(curt.diags == rhs.diags + rec.diags);
                                assert((diags_view(dcur) + rhs.diags) + rec.diags =~= diags_view(
                                dcur) + (rhs.diags + rec.diags));
                            }
                        },
                        None => {
                            let ghost prev = self.diags@;
                            self.diags.push(Diagnostic::ExpectedExpression);
                            proof {
                                lemma_diags_view_push(prev, Diagnostic::ExpectedExpression);
                                assert(curt.val == Some(exp1@));
                                assert(curt.rest == rhs.rest);
                                assert(curt.diags == rhs.diags + seq![DiagView::ExpectedExpression]);
                                assert(diags_view(self.diags@) =~= (diags_view(dcur) + rhs.diags)
                                    + seq![DiagView::ExpectedExpression]);
                                assert((diags_view(dcur) + rhs.diags) + seq![
                                    DiagView::ExpectedExpression,
                                ] =~= diags_view(dcur) + (rhs.diags + seq![
                                    DiagView::ExpectedExpression,
                                ]));
                                let fullt = spec_binary_tail(p.val->0, p.rest, prec as int);
                                assert(diags_view(self.diags@) =~= (diags_view(d0) + p.diags)
                                    + fullt.diags);
                                assert((diags_view(d0) + p.diags) + fullt.diags =~= diags_view(d0)
                                    + (p.diags + fullt.diags));
                            }
                            return Some(exp1);
                        },
                    }
                }
            },
            None => {
                let ghost prev = self.diags@;
                self.diags.push(Diagnostic::ExpectedExpression);
                proof {
                    lemma_diags_view_push(prev, Diagnostic::ExpectedExpression);
                    assert(diags_view(self.diags@) =~= (diags_view(d0) + p.diags) + seq![
                        DiagView::ExpectedExpression,
                    ]);
                    assert((diags_view(d0) + p.diags) + seq![DiagView::ExpectedExpression]
                        =~= diags_view(d0) + (p.diags + seq![DiagView::ExpectedExpression]));
                }
                None
            },
        }
    }

    /// primary = literal | functionCall | Identifier | '(' expression ')',
    /// with a second token of lookahead to tell a call from a variable.
    #[verifier::rlimit(50)]
    fn parse_primary(&mut self) -> (r: Option<Expression>)
        requires
            old(self).wf(),
        ensures
            parser_frame(*old(self), *final(self)),
            ({
                let out = spec_parse_primary(old(self).toks());
                &&& opt_expr_view(r) == out.val
                &&& final(self).toks() == out.rest
                &&& diags_view(final(self).diags@) == diags_view(old(self).diags@) + out.diags
            }),
        decreases old(self).toks().len(), 3int,
    {
        let ghost toks0 = self.toks();
        let t = self.scanner.peek();
        proof {
            crate::scanner::lemma_toks_no_eof(self.scanner);
        }
        match t {
            Token::Identifier(name) => {
                let t2 = self.scanner.peek2();
                if str_eq(t2.text(), "(") {
                    let fc = self.parse_function_call();
                    match fc {
                        Some(f) => Some(Expression::FunctionCall(f)),
                        None => None,
                    }
                } else {
                    self.scanner.next();
                    proof {
                        lemma_adv1(toks0, self.toks());
                        lemma_add_empty_dv(diags_view(self.diags@));
                    }
                    Some(Expression::Variable(Variable::new(name, None)))
                }
            },
            Token::IntegerLiteral(v) => {
                self.scanner.next();
                proof {
                    lemma_adv1(toks0, self.toks());
                    lemma_add_empty_dv(diags_view(self.diags@));
                }
                Some(Expression::IntegerLiteral(IntegerLiteral::new(v)))
            },
            Token::DecimalLiteral(v) => {
                self.scanner.next();
                proof {
                    lemma_adv1(toks0, self.toks());
                    lemma_add_empty_dv(diags_view(self.diags@));
                }
                Some(Expression::DecimalLiteral(DecimalLiteral::new(v)))
            },
            Token::StringLiteral(v) => {
                self.scanner.next();
                proof {
                    lemma_adv1(toks0, self.toks());
                    lemma_add_empty_dv(diags_view(self.diags@));
                }
                Some(Expression::StringLiteral(StringLiteral::new(v)))
            },
            Token::BooleanLiteral(v) => {
                self.scanner.next();
                proof {
                    lemma_adv1(toks0, self.toks());
                    lemma_add_empty_dv(diags_view(self.diags@));
                }
                Some(Expression::BooleanLiteral(BooleanLiteral::new(v)))
            },
            Token::NullLiteral => {
                self.scanner.next();
                proof {
                    lemma_adv1(toks0, self.toks());
                    lemma_add_empty_dv(diags_view(self.diags@));
                }
                Some(Expression::NullLiteral)
            },
            t => {
                if str_eq(t.text(), "(") {
                    proof {
                        lemma_sep_lits();
                        assert("("@.len() == 1);
                        assert(toks0.len() > 0);
                    }
                    self.scanner.next();
                    proof {
                        lemma_adv1(toks0, self.toks());
                        assert(self.toks().len() < toks0.len());
                    }
                    let exp = self.parse_expression();
                    let ghost e = spec_parse_expression(tok_adv(toks0, 1));
                    let t1 = self.scanner.peek();
                    if str_eq(t1.text(), ")") {
                        self.scanner.next();
                        proof {
                            lemma_adv1(e.rest, self.toks());
                            lemma_peek_adv(e.rest, 0);
                        }
                        return exp;
                    }
                    let ghost prev = self.diags@;
                    self.diags.push(Diagnostic::ExpectedRightParen);
                    proof {
                        lemma_diags_view_push(prev, Diagnostic::ExpectedRightParen);
                        assert(diags_view(self.diags@) =~= (diags_view(old(self).diags@) + e.diags)
                            + seq![DiagView::ExpectedRightParen]);
                        assert((diags_view(old(self).diags@) + e.diags) + seq![
                            DiagView::ExpectedRightParen,
                        ] =~= diags_view(old(self).diags@) + (e.diags + seq![
                            DiagView::ExpectedRightParen,
                        ]));
                    }
                    None
                } else {
                    let ghost prev = self.diags@;
                    self.diags.push(Diagnostic::ExpectedExpression);
                    proof {
                        lemma_diags_view_push(prev, Diagnostic::ExpectedExpression);
                        assert(diags_view(self.diags@) =~= diags_view(prev) + seq![
                            DiagView::ExpectedExpression,
                        ]);
                    }
                    None
                }
            },
        }
    }

    /// functionCall = Identifier '(' (expression (',' expression)*)? ')'
    #[verifier::loop_isolation(false)]
    #[verifier::rlimit(50)]
    fn parse_function_call(&mut self) -> (r: Option<FunctionCall>)
        requires
            old(self).wf(),
        ensures
            parser_frame(*old(self), *final(self)),
            ({
                let out = spec_parse_function_call(old(self).toks());
                &&& opt_call_view(r) == out.val
                &&& final(self).toks() == out.rest
                &&& diags_view(final(self).diags@) == diags_view(old(self).diags@) + out.diags
            }),
        decreases old(self).toks().len(), 2int,
    {
        let ghost toks0 = self.toks();
        let ghost d0 = self.diags@;
        let t = self.scanner.next();
        proof {
            lemma_adv1(toks0, self.toks());
        }
        match t {
            Token::Identifier(fn_name) => {
                let t1 = self.scanner.next();
                proof {
                    lemma_adv1(tok_adv(toks0, 1), self.toks());
                    lemma_tok_adv_chain(toks0, 1, 1);
                    lemma_peek_adv(toks0, 1);
                }
                if str_eq(t1.text(), "(") {
                    let ghost start = self.toks();
                    let mut params: Vec<Expression> = Vec::new();
                    let t2 = self.scanner.peek();
                    proof {
                        lemma_peek_adv(toks0, 2);
                    }
                    if str_eq(t2.text(), ")") {
                        self.scanner.next();
                        proof {
                            lemma_adv1(start, self.toks());
                            lemma_add_empty_dv(diags_view(self.diags@));
                        }
                        return Some(FunctionCall::new(fn_name, params, None));
                    }
                    proof {
                        assert(spec_parse_call_args(start, true) == spec_parse_call_args(
                            start,
                            false,
                        ));
                        assert(toks0.len() > 0);
                        assert(start.len() < toks0.len());
                        let fullargs = spec_parse_call_args(start, true);
                        if fullargs.val is Some {
                            assert(view_exprs(params@) =~= Seq::<ExprView>::empty());
                            assert(view_exprs(params@) + fullargs.val->0 =~= fullargs.val->0);
                        }
                    }
                    loop
                        invariant
                            self.wf(),
                            parser_frame(*old(self), *self),
                            self.toks().len() < toks0.len(),
                            ({
                                let fullargs = spec_parse_call_args(start, true);
                                let cur = spec_parse_call_args(self.toks(), false);
                                &&& (cur.val is Some ==> fullargs.val is Some && fullargs.val->0
                                    == view_exprs(params@) + cur.val->0)
                                &&& (cur.val is None ==> fullargs.val is None)
                                &&& fullargs.rest == cur.rest
                                &&& diags_view(d0) + fullargs.diags == diags_view(self.diags@)
                                    + cur.diags
                            }),
                        decreases self.toks().len(),
                    {
                        let ghost cur_toks = self.toks();
                        let ghost dcur = self.diags@;
                        let ghost cur = spec_parse_call_args(cur_toks, false);
                        let exp = self.parse_expression();
                        let ghost e = spec_parse_expression(cur_toks);
                        proof {
                            lemma_len_expression(cur_toks);
                        }
                        match exp {
                            Some(x) => {
                                let ghost prev_params = params@;
                                params.push(x);
                                proof {
                                    lemma_view_exprs_push(prev_params, params@.last());
                                }
                                let t3 = self.scanner.peek();
                                proof {
                                    lemma_peek_adv(e.rest, 0);
                                }
                                if str_eq(t3.text(), ")") {
                                    self.scanner.next();
                                    proof {
                                        lemma_adv1(e.rest, self.toks());
                                        assert(cur.val == Some(seq![x@]));
                                        assert(view_exprs(prev_params) + seq![x@] =~= view_exprs(
                                        params@));
                                    }
                                    return Some(FunctionCall::new(fn_name, params, None));
                                }
                                if str_eq(t3.text(), ",") {
                                    self.scanner.next();
                                    proof {
                                        lemma_adv1(e.rest, self.toks());
                                        assert(e.rest.len() < cur_toks.len());
                                        assert(self.toks().len() < cur_toks.len());
                                        let rec = spec_parse_call_args(self.toks(), false);
                                        if rec.val is Some {
                                            assert(cur.val == Some(seq![x@] + rec.val->0));
                                            assert(view_exprs(prev_params) + (seq![x@]
                                                + rec.val->0) =~= view_exprs(params@)
                                                + rec.val->0);
                                        }
                                        assert((diags_view(dcur) + e.diags) + rec.diags
                                            =~= diags_view(dcur) + (e.diags + rec.diags));
                                    }
                                } else {
                                    let ghost prev = self.diags@;
                                    self.diags.push(Diagnostic::ExpectedCommaInCall);
                                    proof {
                                        lemma_diags_view_push(prev, Diagnostic::ExpectedCommaInCall);
                                        assert(cur.val is None);
                                        assert(diags_view(self.diags@) =~= (diags_view(dcur)
                                            + e.diags) + seq![DiagView::ExpectedCommaInCall]);
                                        assert((diags_view(dcur) + e.diags) + seq![
                                            DiagView::ExpectedCommaInCall,
                                        ] =~= diags_view(dcur) + (e.diags + seq![
                                            DiagView::ExpectedCommaInCall,
                                        ]));
                                    }
                                    return None;
                                }
                            },
                            None => {
                                let ghost prev = self.diags@;
                                self.diags.push(Diagnostic::ExpectedExpression);
                                proof {
                                    lemma_diags_view_push(prev, Diagnostic::ExpectedExpression);
                                    assert(cur.val is None);
                                    assert(diags_view(self.diags@) =~= (diags_view(dcur) + e.diags)
                                        + seq![DiagView::ExpectedExpression]);
                                    assert((diags_view(dcur) + e.diags) + seq![
                                        DiagView::ExpectedExpression,
                                    ] =~= diags_view(dcur) + (e.diags + seq![
                                        DiagView::ExpectedExpression,
                                    ]));
                                }
                                return None;
                            },
                        }
                    }
                } else {
                    proof {
                        lemma_add_empty_dv(diags_view(self.diags@));
                    }
                    None
                }
            },
            _ => {
                proof {
                    lemma_add_empty_dv(diags_view(self.diags@));
                }
                None
            },
        }
    }
}

} // verus!

verus! {

/// A chain of two operators of equal precedence groups to the left: the
/// expression `a op1 b op2 c` parses as `(a op1 b) op2 c` whenever the two
/// operators rank equally and whatever follows stops the climb.
pub proof fn lemma_equal_precedence_groups_left(
    a: Seq<char>,
    op1: Seq<char>,
    b: Seq<char>,
    op2: Seq<char>,
    c: Seq<char>,
    rest: Seq<TokenView>,
)
    requires
        op_prec(op1) > 0,
        op_prec(op2) == op_prec(op1),
        !(op_prec(tv_text(peek_tv(rest, 0))) > 0 && peek_tv(rest, 0) is Operator),
        tv_text(peek_tv(rest, 0)) != "("@,
    ensures
        spec_parse_expression(
            seq![
                TokenView::IntegerLiteral(a),
                TokenView::Operator(op1),
                TokenView::IntegerLiteral(b),
                TokenView::Operator(op2),
                TokenView::IntegerLiteral(c),
            ] + rest,
        ) == (Parsed {
            val: Some(
                ExprView::Binary(
                    BinaryView {
                        op: op2,
                        exp1: Box::new(
                            ExprView::Binary(
                                BinaryView {
                                    op: op1,
                                    exp1: Box::new(ExprView::IntegerLiteral(a)),
                                    exp2: Box::new(ExprView::IntegerLiteral(b)),
                                },
                            ),
                        ),
                        exp2: Box::new(ExprView::IntegerLiteral(c)),
                    },
                ),
            ),
            rest,
            diags: Seq::<DiagView>::empty(),
        }),
{
    lemma_sep_lits();
    let toks = seq![
        TokenView::IntegerLiteral(a),
        TokenView::Operator(op1),
        TokenView::IntegerLiteral(b),
        TokenView::Operator(op2),
        TokenView::IntegerLiteral(c),
    ] + rest;
    let p1 = op_prec(op1);
    // the first primary: `a`
    let t1 = tok_adv(toks, 1);
    assert(t1 =~= seq![
        TokenView::Operator(op1),
        TokenView::IntegerLiteral(b),
        TokenView::Operator(op2),
        TokenView::IntegerLiteral(c),
    ] + rest);
    // the right-hand side of op1: `b` alone, because op2 does not rank higher
    let t2 = tok_adv(t1, 1);
    assert(t2 =~= seq![
        TokenView::IntegerLiteral(b),
        TokenView::Operator(op2),
        TokenView::IntegerLiteral(c),
    ] + rest);
    let t3 = tok_adv(t2, 1);
    assert(t3 =~= seq![TokenView::Operator(op2), TokenView::IntegerLiteral(c)] + rest);
    let rhs1 = spec_parse_binary(t2, p1);
    assert(spec_parse_primary(t2).val == Some(ExprView::IntegerLiteral(b)));
    assert(spec_parse_primary(t2).rest == t3);
    assert(!(op_prec(tv_text(peek_tv(t3, 0))) > p1));
    assert(spec_binary_tail(ExprView::IntegerLiteral(b), t3, p1).val == Some(
        ExprView::IntegerLiteral(b),
    ));
    assert(rhs1.val == Some(ExprView::IntegerLiteral(b)));
    assert(rhs1.rest == t3);
    assert(rhs1.diags =~= Seq::<DiagView>::empty() + Seq::<DiagView>::empty());
    assert(rhs1.diags =~= Seq::<DiagView>::empty());
    // fold `a op1 b`, then climb through op2
    let left = ExprView::Binary(
        BinaryView {
            op: op1,
            exp1: Box::new(ExprView::IntegerLiteral(a)),
            exp2: Box::new(ExprView::IntegerLiteral(b)),
        },
    );
    let t4 = tok_adv(t3, 1);
    assert(t4 =~= seq![TokenView::IntegerLiteral(c)] + rest);
    let t5 = tok_adv(t4, 1);
    assert(t5 =~= rest);
    let rhs2 = spec_parse_binary(t4, op_prec(op2));
    assert(spec_parse_primary(t4).val == Some(ExprView::IntegerLiteral(c)));
    assert(spec_parse_primary(t4).rest == t5);
    assert(spec_binary_tail(ExprView::IntegerLiteral(c), rest, op_prec(op2)).val == Some(
        ExprView::IntegerLiteral(c),
    ));
    assert(rhs2.val == Some(ExprView::IntegerLiteral(c)));
    assert(rhs2.rest == rest);
    assert(rhs2.diags =~= Seq::<DiagView>::empty());
    let whole = ExprView::Binary(
        BinaryView { op: op2, exp1: Box::new(left), exp2: Box::new(ExprView::IntegerLiteral(c)) },
    );
    assert(spec_binary_tail(whole, rest, 0).val == Some(whole));
    assert(spec_binary_tail(left, t3, 0) =~= (Parsed {
        val: Some(whole),
        rest,
        diags: Seq::<DiagView>::empty(),
    }));
    assert(spec_binary_tail(ExprView::IntegerLiteral(a), t1, 0) =~= (Parsed {
        val: Some(whole),
        rest,
        diags: Seq::<DiagView>::empty(),
    }));
    assert(spec_parse_primary(toks).val == Some(ExprView::IntegerLiteral(a)));
    assert(spec_parse_primary(toks).rest == t1);
    assert(spec_parse_binary(toks, 0) =~= (Parsed {
        val: Some(whole),
        rest,
        diags: Seq::<DiagView>::empty(),
    }));
}

/// A higher-ranked operator on the right binds tighter: the expression
/// `a op1 b op2 c` parses as `a op1 (b op2 c)` whenever op2 ranks strictly
/// higher than op1 and whatever follows stops the climb.
pub proof fn lemma_higher_precedence_binds_right(
    a: Seq<char>,
    op1: Seq<char>,
    b: Seq<char>,
    op2: Seq<char>,
    c: Seq<char>,
    rest: Seq<TokenView>,
)
    requires
        op_prec(op1) > 0,
        op_prec(op2) > op_prec(op1),
        !(op_prec(tv_text(peek_tv(rest, 0))) > 0 && peek_tv(rest, 0) is Operator),
        tv_text(peek_tv(rest, 0)) != "("@,
    ensures
        spec_parse_expression(
            seq![
                TokenView::IntegerLiteral(a),
                TokenView::Operator(op1),
                TokenView::IntegerLiteral(b),
                TokenView::Operator(op2),
                TokenView::IntegerLiteral(c),
            ] + rest,
        ) == (Parsed {
            val: Some(
                ExprView::Binary(
                    BinaryView {
                        op: op1,
                        exp1: Box::new(ExprView::IntegerLiteral(a)),
                        exp2: Box::new(
                            ExprView::Binary(
                                BinaryView {
                                    op: op2,
                                    exp1: Box::new(ExprView::IntegerLiteral(b)),
                                    exp2: Box::new(ExprView::IntegerLiteral(c)),
                                },
                            ),
                        ),
                    },
                ),
            ),
            rest,
            diags: Seq::<DiagView>::empty(),
        }),
{
    lemma_sep_lits();
    let toks = seq![
        TokenView::IntegerLiteral(a),
        TokenView::Operator(op1),
        TokenView::IntegerLiteral(b),
        TokenView::Operator(op2),
        TokenView::IntegerLiteral(c),
    ] + rest;
    let p1 = op_prec(op1);
    let p2 = op_prec(op2);
    let t1 = tok_adv(toks, 1);
    assert(t1 =~= seq![
        TokenView::Operator(op1),
        TokenView::IntegerLiteral(b),
        TokenView::Operator(op2),
        TokenView::IntegerLiteral(c),
    ] + rest);
    let t2 = tok_adv(t1, 1);
    assert(t2 =~= seq![
        TokenView::IntegerLiteral(b),
        TokenView::Operator(op2),
        TokenView::IntegerLiteral(c),
    ] + rest);
    let t3 = tok_adv(t2, 1);
    assert(t3 =~= seq![TokenView::Operator(op2), TokenView::IntegerLiteral(c)] + rest);
    let t4 = tok_adv(t3, 1);
    assert(t4 =~= seq![TokenView::IntegerLiteral(c)] + rest);
    let t5 = tok_adv(t4, 1);
    assert(t5 =~= rest);
    // the right-hand side of op1: the whole of `b op2 c`, because op2 ranks higher
    assert(spec_parse_primary(t4).val == Some(ExprView::IntegerLiteral(c)));
    assert(spec_parse_primary(t4).rest == t5);
    assert(spec_binary_tail(ExprView::IntegerLiteral(c), rest, p2).val == Some(
        ExprView::IntegerLiteral(c),
    ));
    let rhs2 = spec_parse_binary(t4, p2);
    assert(rhs2.val == Some(ExprView::IntegerLiteral(c)));
    assert(rhs2.rest == rest);
    assert(rhs2.diags =~= Seq::<DiagView>::empty());
    let right = ExprView::Binary(
        BinaryView {
            op: op2,
            exp1: Box::new(ExprView::IntegerLiteral(b)),
            exp2: Box::new(ExprView::IntegerLiteral(c)),
        },
    );
    assert(spec_binary_tail(right, rest, p1).val == Some(right));
    assert(spec_binary_tail(ExprView::IntegerLiteral(b), t3, p1) =~= (Parsed {
        val: Some(right),
        rest,
        diags: Seq::<DiagView>::empty(),
    }));
    assert(spec_parse_primary(t2).val == Some(ExprView::IntegerLiteral(b)));
    assert(spec_parse_primary(t2).rest == t3);
    let rhs1 = spec_parse_binary(t2, p1);
    assert(rhs1.val == Some(right));
    assert(rhs1.rest == rest);
    assert(rhs1.diags =~= Seq::<DiagView>::empty());
    let whole = ExprView::Binary(
        BinaryView { op: op1, exp1: Box::new(ExprView::IntegerLiteral(a)), exp2: Box::new(right) },
    );
    assert(spec_binary_tail(whole, rest, 0).val == Some(whole));
    assert(spec_binary_tail(ExprView::IntegerLiteral(a), t1, 0) =~= (Parsed {
        val: Some(whole),
        rest,
        diags: Seq::<DiagView>::empty(),
    }));
    assert(spec_parse_primary(toks).val == Some(ExprView::IntegerLiteral(a)));
    assert(spec_parse_primary(toks).rest == t1);
    assert(spec_parse_binary(toks, 0) =~= (Parsed {
        val: Some(whole),
        rest,
        diags: Seq::<DiagView>::empty(),
    }));
}

} // verus!
