use duang::diagnostics::Diagnostic;
use duang::scanner::CharStream;
use duang::scanner::Scanner;
use duang::scanner::Token;

fn scan_all(src: &str) -> (Vec<Token>, Vec<Diagnostic>) {
    let mut s = Scanner::new(CharStream::new(src.to_string()));
    let mut toks = Vec::new();
    loop {
        match s.peek() {
            Token::EOF => break,
            _ => {
                toks.push(s.next());
            }
        }
    }
    (toks, s.diags)
}

fn texts(toks: &[Token]) -> Vec<String> {
    toks.iter().map(|t| t.text().to_string()).collect()
}

#[test]
fn tokenize_declaration_with_initializer() {
    // Keyword(let) Identifier(x) Separator(:) Identifier(int) Operator(=)
    // Integer(2) Operator(+) Integer(3) Operator(*) Integer(4) Separator(;)
    let (toks, diags) = scan_all("let x: int = 2 + 3 * 4;");
    assert_eq!(diags.len(), 0);
    assert_eq!(toks.len(), 11);
    assert!(matches!(&toks[0], Token::Keyword(s) if s == "let"));
    assert!(matches!(&toks[1], Token::Identifier(s) if s == "x"));
    assert!(matches!(&toks[2], Token::Seperator(s) if s == ":"));
    assert!(matches!(&toks[3], Token::Identifier(s) if s == "int"));
    assert!(matches!(&toks[4], Token::Operator(s) if s == "="));
    assert!(matches!(&toks[5], Token::IntegerLiteral(s) if s == "2"));
    assert!(matches!(&toks[6], Token::Operator(s) if s == "+"));
    assert!(matches!(&toks[7], Token::IntegerLiteral(s) if s == "3"));
    assert!(matches!(&toks[8], Token::Operator(s) if s == "*"));
    assert!(matches!(&toks[9], Token::IntegerLiteral(s) if s == "4"));
    assert!(matches!(&toks[10], Token::Seperator(s) if s == ";"));
}

#[test]
fn lookahead_does_not_consume() {
    let mut s = Scanner::new(CharStream::new("a b c".to_string()));
    assert!(matches!(&s.peek(), Token::Identifier(n) if n == "a"));
    assert!(matches!(&s.peek2(), Token::Identifier(n) if n == "b"));
    assert!(matches!(&s.peek(), Token::Identifier(n) if n == "a"));
    assert!(matches!(&s.next(), Token::Identifier(n) if n == "a"));
    assert!(matches!(&s.next(), Token::Identifier(n) if n == "b"));
    assert!(matches!(&s.next(), Token::Identifier(n) if n == "c"));
    assert!(matches!(s.next(), Token::EOF));
    assert!(matches!(s.peek(), Token::EOF));
    assert!(matches!(s.peek2(), Token::EOF));
}

#[test]
fn keywords_and_literal_spellings() {
    let (toks, _) = scan_all("fn let if true false null truthy");
    assert!(matches!(&toks[0], Token::Keyword(s) if s == "fn"));
    assert!(matches!(&toks[1], Token::Keyword(s) if s == "let"));
    assert!(matches!(&toks[2], Token::Keyword(s) if s == "if"));
    assert!(matches!(&toks[3], Token::BooleanLiteral(s) if s == "true"));
    assert!(matches!(&toks[4], Token::BooleanLiteral(s) if s == "false"));
    assert!(matches!(&toks[5], Token::NullLiteral));
    assert!(matches!(&toks[6], Token::Identifier(s) if s == "truthy"));
}

#[test]
fn comments_are_skipped() {
    let (toks, diags) = scan_all("a // to end of line\nb /* between */ c");
    assert_eq!(texts(&toks), vec!["a", "b", "c"]);
    assert_eq!(diags.len(), 0);
}

#[test]
fn unterminated_block_comment_reported_at_end() {
    let (toks, diags) = scan_all("a /* never closed");
    assert_eq!(texts(&toks), vec!["a"]);
    assert_eq!(diags.len(), 1);
    assert!(matches!(diags[0], Diagnostic::UnterminatedComment));
}

#[test]
fn numeric_literals() {
    let (toks, diags) = scan_all("0 7 42 3.14 .5 0.25");
    assert_eq!(diags.len(), 0);
    assert!(matches!(&toks[0], Token::IntegerLiteral(s) if s == "0"));
    assert!(matches!(&toks[1], Token::IntegerLiteral(s) if s == "7"));
    assert!(matches!(&toks[2], Token::IntegerLiteral(s) if s == "42"));
    assert!(matches!(&toks[3], Token::DecimalLiteral(s) if s == "3.14"));
    assert!(matches!(&toks[4], Token::DecimalLiteral(s) if s == ".5"));
    assert!(matches!(&toks[5], Token::DecimalLiteral(s) if s == "0.25"));
}

#[test]
fn trailing_dot_is_a_separator() {
    // digits make a decimal only with more digits after the dot
    let (toks, diags) = scan_all("12. 3.x");
    assert_eq!(diags.len(), 0);
    assert!(matches!(&toks[0], Token::IntegerLiteral(s) if s == "12"));
    assert!(matches!(&toks[1], Token::Seperator(s) if s == "."));
    assert!(matches!(&toks[2], Token::IntegerLiteral(s) if s == "3"));
    assert!(matches!(&toks[3], Token::Seperator(s) if s == "."));
    assert!(matches!(&toks[4], Token::Identifier(s) if s == "x"));
}

#[test]
fn leading_zero_is_reported_and_skipped() {
    let (toks, diags) = scan_all("012 9");
    assert_eq!(diags.len(), 1);
    assert!(matches!(diags[0], Diagnostic::LeadingZeroDigit));
    assert!(matches!(&toks[0], Token::IntegerLiteral(s) if s == "9"));
    assert_eq!(toks.len(), 1);
}

#[test]
fn dots_and_ellipsis() {
    let (toks, diags) = scan_all(". ... a");
    assert_eq!(diags.len(), 0);
    assert!(matches!(&toks[0], Token::Seperator(s) if s == "."));
    assert!(matches!(&toks[1], Token::Seperator(s) if s == "..."));
    assert!(matches!(&toks[2], Token::Identifier(s) if s == "a"));

    let (toks2, diags2) = scan_all(".. b");
    assert_eq!(diags2.len(), 1);
    assert!(matches!(diags2[0], Diagnostic::IncompleteEllipsis));
    assert!(matches!(&toks2[0], Token::Identifier(s) if s == "b"));
}

#[test]
fn string_literals_and_escapes() {
    let (toks, diags) = scan_all("\"hi\" \"a\\nb\" \"t\\tu\" \"q\\\"r\"");
    assert_eq!(diags.len(), 0);
    assert!(matches!(&toks[0], Token::StringLiteral(s) if s == "hi"));
    assert!(matches!(&toks[1], Token::StringLiteral(s) if s == "a\nb"));
    assert!(matches!(&toks[2], Token::StringLiteral(s) if s == "t\tu"));
    assert!(matches!(&toks[3], Token::StringLiteral(s) if s == "q\"r"));
}

#[test]
fn unrecognized_escape_substitutes_null() {
    let (toks, diags) = scan_all("\"a\\zb\"");
    assert_eq!(diags.len(), 1);
    assert!(matches!(diags[0], Diagnostic::UnrecognizedEscape('z')));
    assert!(matches!(&toks[0], Token::StringLiteral(s) if s == "a\0b"));
}

#[test]
fn unterminated_string_yields_empty_literal() {
    let (toks, diags) = scan_all("\"abc");
    assert_eq!(diags.len(), 1);
    assert!(matches!(diags[0], Diagnostic::UnterminatedString));
    assert!(matches!(&toks[0], Token::StringLiteral(s) if s.is_empty()));
}

#[test]
fn operators_use_maximal_munch() {
    let (toks, diags) = scan_all("== = <= << <<= >>= && || |= &= -> ++ ** != ^= %= ~");
    assert_eq!(diags.len(), 0);
    let expect = vec![
        "==", "=", "<=", "<<", "<<=", ">>=", "&&", "||", "|=", "&=", "->", "++", "**", "!=",
        "^=", "%=", "~",
    ];
    assert_eq!(texts(&toks), expect);
    for t in &toks {
        assert!(matches!(t, Token::Operator(_)));
    }
}

#[test]
fn separators_one_character_each() {
    let (toks, diags) = scan_all("( ) { } [ ] , ; : @ ?");
    assert_eq!(diags.len(), 0);
    assert_eq!(
        texts(&toks),
        vec!["(", ")", "{", "}", "[", "]", ",", ";", ":", "@", "?"]
    );
    for t in &toks {
        assert!(matches!(t, Token::Seperator(_)));
    }
}

#[test]
fn unrecognized_character_is_skipped() {
    let (toks, diags) = scan_all("a # b");
    assert_eq!(texts(&toks), vec!["a", "b"]);
    assert_eq!(diags.len(), 1);
    assert!(matches!(diags[0], Diagnostic::UnrecognizedChar('#')));
}

#[test]
fn line_and_column_tracking() {
    let mut cs = CharStream::new("ab\nc".to_string());
    assert_eq!(cs.line, 1);
    assert_eq!(cs.col, 0);
    assert_eq!(cs.next(), 'a');
    assert_eq!(cs.col, 1);
    assert_eq!(cs.next(), 'b');
    assert_eq!(cs.next(), '\n');
    assert_eq!(cs.line, 2);
    assert_eq!(cs.col, 0);
    assert!(!cs.eof());
    assert_eq!(cs.peek(), 'c');
    assert_eq!(cs.next(), 'c');
    assert!(cs.eof());
    assert_eq!(cs.next(), '\0');
    assert_eq!(cs.peek(), '\0');
}
