use duang::ast::Decl;
use duang::ast::Expression;
use duang::ast::Prog;
use duang::ast::Statement;
use duang::diagnostics::Diagnostic;
use duang::intepretor::Intepretor;
use duang::intepretor::RuntimeError;
use duang::parser::Parser;
use duang::scanner::CharStream;
use duang::scanner::Scanner;
use duang::scanner::Token;
use duang::semantic::Enter;
use duang::semantic::RefResolver;
use duang::semantic::SymKind;
use duang::semantic::SymTable;
use duang::serializer::serialize_prog;

fn parse(src: &str) -> (Prog, Parser) {
    let scanner = Scanner::new(CharStream::new(src.to_string()));
    let mut parser = Parser::new(scanner);
    let prog = parser.parse_prog();
    (prog, parser)
}

/// Parses, collects, resolves and evaluates one source text; returns the
/// resolved program, the resolution diagnostics, the output lines and the
/// evaluation result.
fn run(
    src: &str,
) -> (
    Prog,
    Vec<Diagnostic>,
    Vec<String>,
    Result<(), RuntimeError>,
) {
    let (mut prog, _parser) = parse(src);
    let mut enter = Enter::new(SymTable::new());
    enter.visit(&prog);
    let mut resolver = RefResolver::new(enter.sym_table);
    resolver.visit(&mut prog);
    let mut interp = Intepretor::new();
    let r = interp.visit(&prog);
    (prog, resolver.diags, interp.output, r)
}

fn tree(prog: &Prog) -> String {
    format!("{:?}", prog)
}

// --- parsing ---------------------------------------------------------------

#[test]
fn equal_precedence_is_left_associative() {
    let (a, _) = parse("10 - 3 - 2;");
    let (b, _) = parse("((10 - 3) - 2);");
    assert_eq!(tree(&a), tree(&b));
    let (c, _) = parse("(10 - (3 - 2));");
    assert_ne!(tree(&a), tree(&c));
}

#[test]
fn higher_precedence_binds_tighter_on_the_right() {
    let (a, _) = parse("2 + 3 * 5;");
    let (b, _) = parse("(2 + (3 * 5));");
    assert_eq!(tree(&a), tree(&b));
    let (c, _) = parse("((2 + 3) * 5);");
    assert_ne!(tree(&a), tree(&c));
}

#[test]
fn variable_declaration_with_type_and_initializer() {
    let (prog, parser) = parse("let x: int = 2 + 3 * 4;");
    assert_eq!(parser.diags.len(), 0);
    assert_eq!(prog.stmts.len(), 1);
    match &prog.stmts[0] {
        Statement::VariableDecl(vd) => {
            assert_eq!(vd.name, "x");
            assert_eq!(vd.var_type, "int");
            assert!(matches!(vd.init.as_deref(), Some(Expression::Binary(_))));
        }
        other => panic!("expected a variable declaration, got {:?}", other),
    }
}

#[test]
fn omitted_type_defaults_to_any() {
    let (prog, _) = parse("let y = 1;");
    match &prog.stmts[0] {
        Statement::VariableDecl(vd) => {
            assert_eq!(vd.var_type, "any");
        }
        other => panic!("expected a variable declaration, got {:?}", other),
    }
}

#[test]
fn function_declaration_and_call_shapes() {
    let (prog, parser) = parse("fn greet(){ print(\"hi\"); } greet();");
    assert_eq!(parser.diags.len(), 0);
    assert_eq!(prog.stmts.len(), 2);
    match &prog.stmts[0] {
        Statement::FunctionDecl(fd) => {
            assert_eq!(fd.name, "greet");
            assert_eq!(fd.body.stmts.len(), 1);
        }
        other => panic!("expected a function declaration, got {:?}", other),
    }
    match &prog.stmts[1] {
        Statement::ExpressionStatement(es) => match &es.exp {
            Expression::FunctionCall(fc) => {
                assert_eq!(fc.name, "greet");
                assert_eq!(fc.parameters.len(), 0);
                assert!(fc.decl.is_none());
            }
            other => panic!("expected a call, got {:?}", other),
        },
        other => panic!("expected an expression statement, got {:?}", other),
    }
}

#[test]
fn call_arguments_are_ordered() {
    let (prog, parser) = parse("f(1, \"two\", x);");
    assert_eq!(parser.diags.len(), 0);
    match &prog.stmts[0] {
        Statement::ExpressionStatement(es) => match &es.exp {
            Expression::FunctionCall(fc) => {
                assert_eq!(fc.parameters.len(), 3);
                assert!(matches!(&fc.parameters[0], Expression::IntegerLiteral(_)));
                assert!(matches!(&fc.parameters[1], Expression::StringLiteral(_)));
                assert!(matches!(&fc.parameters[2], Expression::Variable(_)));
            }
            other => panic!("expected a call, got {:?}", other),
        },
        other => panic!("expected an expression statement, got {:?}", other),
    }
}

#[test]
fn missing_semicolon_is_reported() {
    let (prog, parser) = parse("1 + 2");
    assert_eq!(prog.stmts.len(), 0);
    assert!(parser
        .diags
        .iter()
        .any(|d| matches!(d, Diagnostic::ExpectedSemicolon)));
}

#[test]
fn declaration_missing_semicolon_is_reported() {
    let (prog, parser) = parse("let x = 1");
    assert_eq!(prog.stmts.len(), 0);
    assert!(parser
        .diags
        .iter()
        .any(|d| matches!(d, Diagnostic::ExpectedSemicolon)));

    let (prog2, parser2) = parse("let y 5;");
    assert_eq!(prog2.stmts.len(), 1);
    assert!(parser2
        .diags
        .iter()
        .any(|d| matches!(d, Diagnostic::ExpectedSemicolon)));
}

#[test]
fn empty_source_parses_to_empty_program() {
    let (prog, parser) = parse("");
    assert_eq!(prog.stmts.len(), 0);
    assert_eq!(parser.diags.len(), 0);
}

#[test]
fn unparseable_statement_start_stops_the_list() {
    // `if` is a keyword no statement can start with; the loop reports it and
    // stops instead of spinning at the same token.
    let (prog, parser) = parse("if;");
    assert_eq!(prog.stmts.len(), 0);
    assert!(parser
        .diags
        .iter()
        .any(|d| matches!(d, Diagnostic::StatementNotRecognized)));
}

// --- collection and resolution ----------------------------------------------

#[test]
fn duplicate_declaration_reported_once_and_last_wins() {
    let (prog, _) = parse("fn foo(){} fn foo(){}");
    let mut enter = Enter::new(SymTable::new());
    enter.visit(&prog);
    let dups: Vec<_> = enter
        .diags
        .iter()
        .filter(|d| matches!(d, Diagnostic::DuplicateDeclaration(n) if n == "foo"))
        .collect();
    assert_eq!(dups.len(), 1);
    assert_eq!(enter.diags.len(), 1);
    assert!(enter.sym_table.has_symbol("foo"));
}

#[test]
fn later_declaration_wins_in_the_table() {
    let (prog, _) = parse("fn foo(){} fn foo(){ print(\"a\"); }");
    let mut enter = Enter::new(SymTable::new());
    enter.visit(&prog);
    let sym = enter.sym_table.get_symbol("foo").expect("foo must be bound");
    assert!(matches!(sym.kind, SymKind::Function));
    match sym.decl {
        Decl::FunctionDecl(fd) => assert_eq!(fd.body.stmts.len(), 1),
        other => panic!("expected a function declaration, got {:?}", other),
    }
}

#[test]
fn resolution_attaches_declaration_to_call() {
    let (prog, diags, output, result) = run("fn greet(){ print(\"hi\"); } greet();");
    assert_eq!(diags.len(), 0);
    match &prog.stmts[1] {
        Statement::ExpressionStatement(es) => match &es.exp {
            Expression::FunctionCall(fc) => {
                let d = fc.decl.as_ref().expect("the call must be resolved");
                assert_eq!(d.name, "greet");
                assert_eq!(d.body.stmts.len(), 1);
            }
            other => panic!("expected a call, got {:?}", other),
        },
        other => panic!("expected an expression statement, got {:?}", other),
    }
    assert!(result.is_ok());
    assert_eq!(output, vec!["hi".to_string()]);
}

#[test]
fn unresolved_reference_is_reported_and_fatal() {
    let (prog, diags, output, result) = run("bar();");
    match &prog.stmts[0] {
        Statement::ExpressionStatement(es) => match &es.exp {
            Expression::FunctionCall(fc) => assert!(fc.decl.is_none()),
            other => panic!("expected a call, got {:?}", other),
        },
        other => panic!("expected an expression statement, got {:?}", other),
    }
    let missing: Vec<_> = diags
        .iter()
        .filter(|d| matches!(d, Diagnostic::UnresolvedFunction(n) if n == "bar"))
        .collect();
    assert_eq!(missing.len(), 1);
    assert_eq!(output.len(), 0);
    match result {
        Err(RuntimeError::FunctionNotFound(name)) => assert_eq!(name, "bar"),
        other => panic!("expected a definition-not-found failure, got {:?}", other),
    }
}

#[test]
fn builtin_print_is_exempt_from_unresolved_reports() {
    let (_, diags, _, result) = run("print(\"ok\");");
    assert_eq!(diags.len(), 0);
    assert!(result.is_ok());
}

// --- evaluation ---------------------------------------------------------------

#[test]
fn print_with_zero_one_and_many_arguments() {
    let (_, _, out0, r0) = run("print();");
    assert!(r0.is_ok());
    assert_eq!(out0, vec!["".to_string()]);

    let (_, _, out1, r1) = run("print(\"a\");");
    assert!(r1.is_ok());
    assert_eq!(out1, vec!["a".to_string()]);

    let (_, _, out2, r2) = run("print(\"a\",\"b\");");
    assert!(r2.is_ok());
    assert_eq!(out2, vec!["[\"a\", \"b\"]".to_string()]);
    assert!(out2[0].contains("a") && out2[0].contains("b"));
}

#[test]
fn print_formats_every_value_kind() {
    let (_, _, out, r) = run("print(true); print(false); print(null); print(7); print(2.5);");
    assert!(r.is_ok());
    assert_eq!(
        out,
        vec![
            "true".to_string(),
            "false".to_string(),
            "null".to_string(),
            "7".to_string(),
            "2.5".to_string(),
        ]
    );
}

#[test]
fn variables_bind_and_read_back() {
    let (_, diags, out, r) = run("let x = \"v\"; print(x);");
    assert_eq!(diags.len(), 0);
    assert!(r.is_ok());
    assert_eq!(out, vec!["v".to_string()]);
}

#[test]
fn reading_an_unbound_variable_is_fatal() {
    // declared without an initializer: reading it stops the run
    let (_, _, out, r) = run("let x; print(x);");
    assert_eq!(out.len(), 0);
    match r {
        Err(RuntimeError::UndefinedVariable(name)) => assert_eq!(name, "x"),
        other => panic!("expected an undefined-variable failure, got {:?}", other),
    }
}

#[test]
fn execution_stops_at_the_first_error() {
    let (_, _, out, r) = run("print(\"first\"); missing(); print(\"late\");");
    assert_eq!(out, vec!["first".to_string()]);
    assert!(matches!(r, Err(RuntimeError::FunctionNotFound(_))));
}

#[test]
fn combining_values_is_not_defined_yet() {
    let (_, _, out, r) = run("let x = 1 + 2; print(\"never\");");
    assert_eq!(out.len(), 0);
    match r {
        Err(RuntimeError::UnsupportedOperation(op)) => assert_eq!(op, "+"),
        other => panic!("expected an unsupported-operation failure, got {:?}", other),
    }
}

#[test]
fn body_statements_run_in_order() {
    let (_, diags, out, r) = run("fn a(){ print(\"1\"); print(\"2\"); } a(); a();");
    assert_eq!(diags.len(), 0);
    assert!(r.is_ok());
    assert_eq!(
        out,
        vec![
            "1".to_string(),
            "2".to_string(),
            "1".to_string(),
            "2".to_string(),
        ]
    );
}

#[test]
fn attached_declarations_are_collection_time_clones() {
    // The declaration attached to a call site is the clone the collection
    // pass stored, taken before resolution ran; a user-call nested inside
    // that clone is therefore still unresolved when the body executes.
    let (_, diags, out, r) = run("fn inner(){ print(\"i\"); } fn outer(){ inner(); } outer();");
    assert_eq!(diags.len(), 0);
    assert_eq!(out.len(), 0);
    match r {
        Err(RuntimeError::FunctionNotFound(name)) => assert_eq!(name, "inner"),
        other => panic!("expected a definition-not-found failure, got {:?}", other),
    }
}

// --- round trip -----------------------------------------------------------------

fn render(tokens: &[Token]) -> String {
    let mut pieces: Vec<String> = Vec::new();
    for t in tokens {
        match t {
            Token::StringLiteral(s) => pieces.push(format!("\"{}\"", s)),
            Token::NullLiteral => pieces.push("null".to_string()),
            Token::EOF => {}
            other => pieces.push(other.text().to_string()),
        }
    }
    pieces.join(" ")
}

#[test]
fn serialized_tokens_reparse_to_the_same_tree() {
    let src = "print(\"hi\", 2); 1 + 2 * 3; 10 - 3 - 2; f(g(x), .5, true, null);";
    let (prog1, parser1) = parse(src);
    assert_eq!(parser1.diags.len(), 0);
    let tokens = serialize_prog(&prog1);
    let rendered = render(&tokens);
    let (prog2, parser2) = parse(&rendered);
    assert_eq!(parser2.diags.len(), 0);
    assert_eq!(tree(&prog1), tree(&prog2));
}

#[test]
fn round_trip_covers_text_reading_like_separators() {
    // a first argument reading like `)`, a bare null statement and a
    // statement reading like `}` are parenthesized when serialized
    for src in ["f((\")\"));", "(null);", "(\"}\");"] {
        let (prog1, parser1) = parse(src);
        assert_eq!(parser1.diags.len(), 0, "source {:?}", src);
        let tokens = serialize_prog(&prog1);
        let rendered = render(&tokens);
        let (prog2, parser2) = parse(&rendered);
        assert_eq!(parser2.diags.len(), 0, "rendered {:?}", rendered);
        assert_eq!(tree(&prog1), tree(&prog2), "source {:?}", src);
    }
}

#[test]
fn serialization_parenthesizes_structure() {
    let (prog, _) = parse("2 + 3 * 5;");
    let tokens = serialize_prog(&prog);
    assert_eq!(render(&tokens), "( 2 + ( 3 * 5 ) ) ;");
}

#[test]
fn later_binding_shadows_earlier() {
    let (_, _, out, r) = run("let x = 1; let x = 2; print(x);");
    assert!(r.is_ok());
    assert_eq!(out, vec!["2".to_string()]);
}

#[test]
fn print_quotes_text_only_in_listings() {
    let (_, _, out, r) = run("print(1, \"a\", true, null, 2.5);");
    assert!(r.is_ok());
    assert_eq!(out, vec!["[1, \"a\", true, null, 2.5]".to_string()]);
}
