//! Separator-aware parser combinators.
//!
//! A grammar is a tree of combinators over primitive token parsers. Running a
//! grammar with a separator splices the separator parser in front of every
//! sub-parser, so that ignorable bytes (typically whitespace) between tokens
//! never have to be handled by the grammar's author.
//!
//! Every parser returns one of three kinds of outcome: success with the
//! remaining input and a value, a recoverable mismatch, or an outcome that no
//! enclosing combinator may absorb (not enough input yet, or a fatal error).

pub mod outcome;
pub mod separator;
pub mod token;
pub mod grammar;
pub mod semantics;
pub mod engine;
pub mod laws;
pub mod order_laws;
pub mod cursor_laws;
