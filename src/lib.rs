//! A grammar engine: token definitions and combinable parsing rules, a
//! tokenizer that scans on demand, and a compiler from a JSON-shaped grammar
//! description to an executable grammar.

mod re;
mod text;

pub mod fragment;
pub mod fs;
pub mod grammar;
pub mod json_to_grammar;
pub mod laws;
pub mod rules;
pub mod token;
