//! The notation grammar.
pub mod hum_grammar;
