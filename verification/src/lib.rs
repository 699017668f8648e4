//! Core pipeline of a small expression-oriented scripting language:
//! lexer, Pratt parser, AST, bytecode compiler and stack virtual machine.

pub mod decimal;
pub mod token;
pub mod object;
pub mod symbol_table;
pub mod bytecode;
pub mod ast;
pub mod lexer;
pub mod parser;
pub mod compiler;
pub mod vm;
pub mod laws;
