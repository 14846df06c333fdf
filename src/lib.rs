pub mod lexer;
pub mod parser;
pub mod interpreter;
pub mod program;
