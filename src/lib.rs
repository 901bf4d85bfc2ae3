pub mod ast;
pub mod error;
pub mod evaluator;
pub mod laws;
pub mod operator;
pub mod parser;
pub mod tokenizer;
