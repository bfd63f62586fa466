//! A tree-walking interpreter for the Lox scripting language: scanning,
//! parsing, static resolution of variable bindings, and evaluation.
//!
//! Every stage is a verified function over plain values. Work that cannot be
//! expressed over integers and bytes (binary64 arithmetic, number formatting,
//! the wall clock, writing output) is requested from the host through
//! [`interpreter::Step`] and handed back through [`interpreter::Reply`].

pub mod token_type;
pub mod token;
pub mod table;
pub mod expr;
pub mod stmt;
pub mod lox;
pub mod report;
pub mod resolver;
pub mod lox_function;
pub mod value;
pub mod environment;
pub mod interpreter;
pub mod scanner;
pub mod grammar;
pub mod parser;
pub mod ast_printer;
