//! The front end of a small scripting language: a lexer that turns source
//! text into tokens with line and column, and a recursive-descent parser
//! that turns the tokens into an expression tree and collects diagnostics.

pub mod diagnostic;
pub mod grammar;
pub mod grammar_facts;
pub mod lexer;
pub mod parser;
pub mod scanning;
pub mod scanning_facts;
pub mod token;
pub mod tree;
pub mod util;
