//! Expression Constraint Language (ECL): expressions, their parser and
//! their executor.
//!
//! The language is the subset
//!
//! ```text
//! expr  ::= term ( ( 'AND' | 'OR' | 'MINUS' ) term )*
//! term  ::= focus | '(' expr ')'
//! focus ::= op? identifier
//! op    ::= '<<' | '<' | '>>' | '>' | '^'
//! ```
//!
//! The set operators have one precedence and associate to the left.

pub mod ast;
pub mod lexer;
pub mod parser;
pub mod executor;
pub mod plan;
pub mod round_trip;
