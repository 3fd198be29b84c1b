pub mod token;
pub mod lexer;
pub mod tokenizer;
pub mod ast;
pub mod output;
pub mod compiler;
pub mod ir;
pub mod judge;
