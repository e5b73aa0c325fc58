//! Front end of a small scripting language: a scanner that turns source text
//! into tokens, a recursive-descent parser that builds a syntax tree, and a
//! tree-walking evaluator over a stack of lexical scopes.
pub mod ast;
pub mod interpreter;
pub mod parser;
pub mod text;
pub mod tokenizer;
