//! A lexical analyzer for a Lisp-family textual syntax: two bracket families
//! (lists `( )` and cons-pairs `[ ]`), symbols, numeric and string literals,
//! comments, and whitespace classified by orientation. Tokens carry a semantic
//! tag and a handle to their exact source text; text is deduplicated through a
//! string-interning table so that repeated identifiers share storage.

pub mod grammar;
pub mod intern;
pub mod scan;
pub mod token;
