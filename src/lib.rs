pub mod lexer;
pub mod number;
pub mod text;
pub mod parse;
pub mod environment;
pub mod evaluate;
pub mod function;
pub mod grammar;
