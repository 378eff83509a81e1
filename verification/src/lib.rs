//! An interactive-calculator core: a tokenizer, operator tables, an
//! expression tree with its evaluator, and a precedence-climbing parser.
//!
//! The input line is modelled as a sequence of characters; `lexer::tokens_of`
//! gives the token stream a line denotes, `parser::spec_parse` gives the tree
//! the grammar assigns to a token stream, and `expression::spec_eval` gives
//! the value a tree evaluates to.  The executable functions are proved to
//! follow these three specifications exactly.

pub mod expression;
pub mod laws;
pub mod lexer;
pub mod operator;
pub mod parse_result;
pub mod parser;
