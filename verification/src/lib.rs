//! Parsing of interface descriptions and generation of bridge code.
//!
//! `token` splits the text into tokens, `builder` reads classes and their
//! functions from the tokens, `codegen` writes the bridge functions and trait
//! declarations, and `messaging` answers the requests that foreign callers
//! send. The `*_laws` modules state and prove properties of the tokenizer and
//! of the parser.

pub mod builder;
pub mod builder_laws;
pub mod chars;
pub mod codegen;
pub mod display_laws;
pub mod grammar_laws;
pub mod interface;
pub mod messaging;
pub mod pipeline_laws;
pub mod token;
pub mod token_laws;
