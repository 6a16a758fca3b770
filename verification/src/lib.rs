//! A small interpreter for prefix arithmetic written as S-expressions:
//! a lexer, a recursive-descent parser and a tree-walking evaluator,
//! each with a mathematical model that its executable code is proved against.
//!
//! A line of text goes through `tokenize`, `Parser::parse` and
//! `Interpreter::evaluate`, in that order; the first stage that fails
//! reports the error.

pub mod expr;
pub mod interpreter;
pub mod laws;
pub mod lexer;
pub mod parser;

pub use expr::LispExpr;
pub use interpreter::{Interpreter, Operator};
pub use lexer::{tokenize, try_tokenize, Token, TokenType};
pub use parser::Parser;
