//! A consumer-driven contract-testing engine: matches incoming HTTP requests
//! against expected interactions, and instantiates request/response templates
//! by applying value generators addressed by path expressions.

pub mod bodymatch;
pub mod cliargs;
pub mod generate;
pub mod jsonparse;
pub mod jsonval;
pub mod laws;
pub mod matchers;
pub mod matching;
pub mod mismatch;
pub mod models;
pub mod pathexp;
pub mod strutil;
pub mod xmlval;
