//! CypherLite query engine: lexer, parser, logical planner and optimizer,
//! and the pure parts of the executor, each with its contract.

pub mod text;
pub mod lexer;
pub mod parser;
pub mod planner;
pub mod executor;
