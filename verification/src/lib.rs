//! A small stack-based interpreted language: lexer, parser, include
//! preprocessing and the interpreter's step semantics.
pub mod text;
pub mod lexer;
pub mod parser;
pub mod preprocessor;
pub mod value;
pub mod names;
pub mod semantics;
pub mod interpreter;
pub mod laws;
pub mod step_laws;
pub mod parse_laws;
