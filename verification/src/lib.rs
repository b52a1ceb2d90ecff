//! Front end and evaluator for a minimal scripting language: character-level
//! scanning, token production with two-token lookahead, recursive-descent
//! parsing with precedence climbing, two-pass semantic resolution (symbol
//! collection, then reference resolution) and a tree-walking evaluator.
//!
//! Every stage is specified against a mathematical model: the scanner against
//! a specification-level tokenizer over `Seq<char>`, the parser against a
//! specification-level parser over token views, and the resolver and
//! evaluator against recursive specification functions over the AST views.
//! Diagnostics are collected as structured values, and the evaluator returns
//! its output lines instead of writing to a sink, so that callers decide how
//! to present both.

pub mod ast;
pub mod diagnostics;
pub mod intepretor;
pub mod parser;
pub mod scanner;
pub mod semantic;
pub mod serializer;
pub mod text;
