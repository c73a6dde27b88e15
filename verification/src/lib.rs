//! A lexical scanner for Yacc/Bison-style grammar-specification files.
//!
//! The scanner turns a buffered byte stream into a sequence of typed tokens
//! under longest-match-with-declaration-order-tie-break semantics. Trivia
//! (whitespace and comments) is recognized but filtered out by the streaming
//! adapter before tokens reach the grammar parser.

pub mod tokens;
pub mod matching;
pub mod scanner;
pub mod iterator;
