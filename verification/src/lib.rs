//! A minimal command interpreter: a tokenizer and recursive-descent parser that
//! turn one line of text into a command tree, and a step function that walks
//! such a tree as a sequence of process-control actions.

pub mod builtin;
pub mod chars;
pub mod command;
pub mod executor;
pub mod grammar;
pub mod laws;
pub mod parser;
pub mod printer;
pub mod resolve;
pub mod token;
