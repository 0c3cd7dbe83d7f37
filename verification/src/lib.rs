//! A verified tree-walking interpreter for a small dynamically typed
//! scripting language: a scanner, a recursive-descent parser, a lexically
//! scoped environment, and an evaluator.
//!
//! Numbers in the language are 64-bit signed integers with wrapping
//! arithmetic; division truncates toward zero and division by zero yields
//! zero. Each stage is specified against a mathematical model: the scanner
//! and parser against recursive specification functions over character and
//! token sequences, the evaluator against a fuel-bounded big-step semantics.
pub mod environment;
pub mod expr;
pub mod interpreter;
pub mod lox;
pub mod object;
pub mod parser;
pub mod printer;
pub mod scanner;
pub mod stmt;
pub mod text;
pub mod token;

pub use token::Token;
pub use token::TokenType;
