//! The dynamic-expression core of a SQL templating layer: a tokenizer and an operator registry,
//! a parser and an evaluator for a small expression language over JSON-like values, a cache of
//! parsed expressions, and SQL templates whose placeholders are filled from those expressions.
use vstd::prelude::*;

pub mod ast;
pub mod engine;
pub mod expr;
pub mod json;
pub mod laws;
pub mod operators;
pub mod parser;
pub mod template;
pub mod text;
pub mod tokenizer;
pub mod value;

verus! {

} // verus!
