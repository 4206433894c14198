//! A small dynamically typed expression language: a longest-match tokenizer,
//! a recursive-descent parser and a tree-walking evaluator over a stack of
//! scopes, each stated against a mathematical model and proved to meet it.
pub mod ast;
pub mod interpreter;
pub mod lexer;
pub mod parser;
pub mod token;
pub mod utils;
