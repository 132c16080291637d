//! JSON documents: their model, their grammar and a parser proved against it.

pub mod grammar;
pub mod lemmas;
pub mod parser;
pub mod plain;
pub mod scanner;
pub mod value;
