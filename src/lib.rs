//! Syntax-directed translation of a C token stream into Rust source fragments.
pub mod balance;
pub mod emit;
pub mod laws;
pub mod lexeme;
pub mod model;
pub mod parser;
pub mod scan;
pub mod shift;
pub mod types;
