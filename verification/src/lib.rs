//! Reading and writing the terms of a small rewriting language.
//!
//! `language` holds the readers, `printer` the writers; `grammar` says what
//! is read, `laws` what reading and writing have to do with each other.

pub mod text;
pub mod parser;
pub mod term;
pub mod grammar;
pub mod language;
pub mod printer;
pub mod laws;
