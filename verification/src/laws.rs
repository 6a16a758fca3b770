//! Laws of the lexer, the parser and the evaluator, each stated over their
//! models and proved of every input.

pub mod evaluation;
pub mod lexing;
pub mod parsing;
pub mod pipeline;
