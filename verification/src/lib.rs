//! A small JSON parsing library, verified end to end.
//!
//! Source text is first tokenized by the lexer into a sequence of located
//! tokens; a recursive-descent parser then consumes that token stream and
//! builds a dynamically typed value tree, or reports a structured error
//! saying where and why parsing failed.
//!
//! Every public operation carries a contract relating it to a mathematical
//! model of lexing and parsing, stated over sequences of characters.

pub mod json;
pub mod laws;
pub mod lexer;
pub mod parser;
pub mod text;
pub mod token;
pub mod value;

pub use json::Json;
pub use token::LexicalToken;
pub use token::ParseError;
pub use token::SourceLocation;
pub use token::Token;
pub use value::Datum;
