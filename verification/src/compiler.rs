pub mod ast;
pub mod lexer;
pub mod parser;
pub mod sem;
pub mod ir;
pub mod codegen;
pub mod laws;
