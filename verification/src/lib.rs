//! A tree-walking interpreter for Lox, organised as a pipeline of verified
//! stages: scanner, parser, resolver and a step-wise evaluator.
//!
//! The evaluator never performs input or output and never touches a
//! floating-point unit. Numbers are carried as IEEE-754 binary64 bit
//! patterns; whenever a program needs arithmetic, the clock, or a line of
//! output, the evaluator hands an action to its host and waits for the
//! answer.

pub mod ast;
pub mod binding;
pub mod class;
pub mod env;
pub mod error;
pub mod expr;
pub mod footprint;
pub mod forest;
pub mod functions;
pub mod growth;
pub mod interpreter;
pub mod laws;
pub mod locals;
pub mod machine;
pub mod number;
pub mod object;
pub mod parser;
pub mod preservation;
pub mod resolution;
pub mod resolved;
pub mod resolver;
pub mod runner;
pub mod scanner;
pub mod scoping;
pub mod soundness;
pub mod semantics;
pub mod stmt;
pub mod table;
pub mod text;
pub mod tokens;

