pub mod token;
pub mod text;
pub mod ast;
pub mod keywords;
pub mod lexer;
