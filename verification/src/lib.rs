//! Front end of an interpreter for a small C-like scripting language:
//! a lexer, a transactional branch engine, a token-caching parser and a
//! backtracking recursive-descent grammar, all verified against a
//! mathematical model of the token stream and of the grammar.

pub mod ast;
pub mod branch;
pub mod grammar;
pub mod lexer;
pub mod literal;
pub mod parser;
pub mod parsable;
pub mod read_from;
pub mod source;
pub mod scan;
pub mod token;
pub mod utils;
