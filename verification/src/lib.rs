//! Front end and middle end of the Quale compiler: lexing, parsing, name
//! mangling, type inference and lowering to an OpenQASM gate module.
pub mod analyzer;
pub mod ast;
pub mod attributes;
pub mod codegen;
pub mod config;
pub mod error;
pub mod grammar;
pub mod inference;
pub mod lexer;
pub mod mangler;
pub mod number;
pub mod optimizer;
pub mod parser;
pub mod render;
pub mod text;
pub mod types;
pub mod typing;
pub mod utils;
