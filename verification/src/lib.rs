//! An interpreter front end for the Monkey language: a lexer, a Pratt parser
//! and a symbol table for the compiler.

pub mod symtab;
pub mod parser;
pub mod lexer;
