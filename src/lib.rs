//! abanos: the interpreter kernel of a small Scheme-like language.
//!
//! A lexer and a recursive-descent reader with error recovery turn text into
//! expressions; a continuation-passing evaluator steps a reified continuation
//! until it reaches its terminal frame.
pub mod lexer;
pub mod expr;
pub mod parse;
pub mod continuation;
pub mod value;
pub mod env;
pub mod text;
pub mod eval;
pub mod auth;
pub mod connection;
pub mod token;
