//! Structured diagnostics.
//!
//! Every stage of the pipeline reports problems by appending a value of
//! [`Diagnostic`] to a collector owned by that stage; no stage aborts on a
//! diagnostic. The view type [`DiagView`] is the mathematical model used in
//! contracts.

use vstd::prelude::*;

verus! {

/// A single problem found while scanning, parsing or resolving.
#[derive(Debug)]
pub enum Diagnostic {
    /// A character that starts no token; it is skipped.
    UnrecognizedChar(char),
    /// A numeric literal beginning with `0` followed by another digit.
    LeadingZeroDigit,
    /// Exactly two dots where either one dot or `...` was expected.
    IncompleteEllipsis,
    /// An escape sequence other than `\n`, `\t`, `\"` or a null escape.
    UnrecognizedEscape(char),
    /// A string literal that reaches the end of input before its closing `"`.
    UnterminatedString,
    /// A block comment that reaches the end of input before `*/`.
    UnterminatedComment,
    /// A statement that starts with a token no statement can start with.
    UnexpectedStatementStart,
    /// A statement the statement-list loop could not parse.
    StatementNotRecognized,
    /// A declared function whose body could not be parsed.
    ExpectedFunctionBody,
    /// `let` not followed by an identifier.
    ExpectedVariableName,
    /// `:` in a variable declaration not followed by a type name.
    ExpectedTypeAnnotation,
    /// A missing `;` after an expression statement or variable declaration.
    ExpectedSemicolon,
    /// `fn` not followed by an identifier.
    ExpectedFunctionName,
    /// A missing `(` after a declared function's name.
    ExpectedLeftParen,
    /// A missing `)` in a declaration header or parenthesized expression.
    ExpectedRightParen,
    /// A missing `{` at the start of a function body.
    ExpectedLeftBrace,
    /// A missing `}` at the end of a function body.
    ExpectedRightBrace,
    /// A position where an expression was required but none could be parsed.
    ExpectedExpression,
    /// A function-call argument list where neither `,` nor `)` follows an argument.
    ExpectedCommaInCall,
    /// A second declaration of an already declared name; the later one wins.
    DuplicateDeclaration(String),
    /// A call to a function that no declaration and no built-in provides.
    UnresolvedFunction(String),
    /// A use of a variable that no declaration provides.
    UnresolvedVariable(String),
}

/// Mathematical model of a [`Diagnostic`]: names are sequences of characters.
#[verifier::ext_equal]
pub enum DiagView {
    UnrecognizedChar(char),
    LeadingZeroDigit,
    IncompleteEllipsis,
    UnrecognizedEscape(char),
    UnterminatedString,
    UnterminatedComment,
    UnexpectedStatementStart,
    StatementNotRecognized,
    ExpectedFunctionBody,
    ExpectedVariableName,
    ExpectedTypeAnnotation,
    ExpectedSemicolon,
    ExpectedFunctionName,
    ExpectedLeftParen,
    ExpectedRightParen,
    ExpectedLeftBrace,
    ExpectedRightBrace,
    ExpectedExpression,
    ExpectedCommaInCall,
    DuplicateDeclaration(Seq<char>),
    UnresolvedFunction(Seq<char>),
    UnresolvedVariable(Seq<char>),
}

impl View for Diagnostic {
    type V = DiagView;

    open spec fn view(&self) -> DiagView {
        match self {
            Diagnostic::UnrecognizedChar(c) => DiagView::UnrecognizedChar(*c),
            Diagnostic::LeadingZeroDigit => DiagView::LeadingZeroDigit,
            Diagnostic::IncompleteEllipsis => DiagView::IncompleteEllipsis,
            Diagnostic::UnrecognizedEscape(c) => DiagView::UnrecognizedEscape(*c),
            Diagnostic::UnterminatedString => DiagView::UnterminatedString,
            Diagnostic::UnterminatedComment => DiagView::UnterminatedComment,
            Diagnostic::UnexpectedStatementStart => DiagView::UnexpectedStatementStart,
            Diagnostic::StatementNotRecognized => DiagView::StatementNotRecognized,
            Diagnostic::ExpectedFunctionBody => DiagView::ExpectedFunctionBody,
            Diagnostic::ExpectedVariableName => DiagView::ExpectedVariableName,
            Diagnostic::ExpectedTypeAnnotation => DiagView::ExpectedTypeAnnotation,
            Diagnostic::ExpectedSemicolon => DiagView::ExpectedSemicolon,
            Diagnostic::ExpectedFunctionName => DiagView::ExpectedFunctionName,
            Diagnostic::ExpectedLeftParen => DiagView::ExpectedLeftParen,
            Diagnostic::ExpectedRightParen => DiagView::ExpectedRightParen,
            Diagnostic::ExpectedLeftBrace => DiagView::ExpectedLeftBrace,
            Diagnostic::ExpectedRightBrace => DiagView::ExpectedRightBrace,
            Diagnostic::ExpectedExpression => DiagView::ExpectedExpression,
            Diagnostic::ExpectedCommaInCall => DiagView::ExpectedCommaInCall,
            Diagnostic::DuplicateDeclaration(n) => DiagView::DuplicateDeclaration(n@),
            Diagnostic::UnresolvedFunction(n) => DiagView::UnresolvedFunction(n@),
            Diagnostic::UnresolvedVariable(n) => DiagView::UnresolvedVariable(n@),
        }
    }
}

/// The views of the collected diagnostics, in the order they were reported.
pub open spec fn diags_view(v: Seq<Diagnostic>) -> Seq<DiagView> {
    v.map_values(|d: Diagnostic| d@)
}

/// Appending one diagnostic appends one view.
pub proof fn lemma_diags_view_push(v: Seq<Diagnostic>, d: Diagnostic)
    ensures
        diags_view(v.push(d)) == diags_view(v).push(d@),
{
    assert(diags_view(v.push(d)) =~= diags_view(v).push(d@));
}

} // verus!
