//! A front-to-back core for arithmetic expressions: a lexer from text to
//! lexemes and a precedence-climbing parser from lexemes to a syntax tree,
//! each proved against a grammar stated as spec functions. Number literals
//! are kept as text; turning them into numbers is left to the caller.
pub mod laws;
pub mod lexer;
pub mod parser;
pub mod token;
