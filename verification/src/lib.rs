pub mod ascii;
pub mod callable;
pub mod environment;
pub mod error;
pub mod expression;
pub mod grammar;
pub mod grammar_laws;
pub mod interpreter;
pub mod lexer;
pub mod lexer_laws;
pub mod lexer_locality;
pub mod number;
pub mod parser;
pub mod printer;
pub mod program_laws;
pub mod semantics;
pub mod semantics_laws;
pub mod statement;
pub mod text;
pub mod token;
pub mod value;
