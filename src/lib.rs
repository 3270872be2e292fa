//! An interpreter for a small line-oriented turtle-graphics language: a lexer
//! that classifies words, a parser that builds statements and a procedure
//! table, and an evaluator that runs them against a drawing collaborator.
//!
//! Values are whole numbers (`i64`); arithmetic whose result leaves that range
//! fails, as does division by zero. Comparisons and logic give 1 or 0.
pub mod ast;
pub mod error;
pub mod executor;
pub mod expression;
pub mod laws;
pub mod lexer;
pub mod manager;
pub mod parser;
pub mod table;
pub mod text;
pub mod turtle;
