//! A small scripting language: source text is scanned and parsed, statically type
//! checked, compiled to bytecode and run on a stack machine whose single result value
//! is rendered as JSON-like text.
pub mod ast;
pub mod bytecode;
pub mod compiler;
pub mod formatter;
pub mod number;
pub mod object;
pub mod parser;
pub mod pipeline;
pub mod scanner;
pub mod token;
pub mod type_checker;
pub mod types;
pub mod vm;
