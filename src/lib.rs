pub mod token_type;
pub mod token;
pub mod error;
pub mod lexical;
pub mod text;
pub mod scanner;
pub mod laws;
pub mod ast_gen;
pub mod expr;
