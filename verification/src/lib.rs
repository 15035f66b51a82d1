//! A small SQL-like query front end: a tokenizer with a keyword-resolution
//! pass, a recursive-descent parser producing a `SelectExpression` tree, and
//! a simple projection executor over an in-memory tabular store.

pub mod csv;
pub mod database;
pub mod keywords;
pub mod lexer;
pub mod parens;
pub mod parser;
pub mod query;
pub mod text;
pub mod token;
