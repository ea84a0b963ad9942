//! A minimal markup-language front end: a character-level tokenizer that
//! turns raw markup text into a linear sequence of structural tokens, and a
//! stack-based tree builder that turns that sequence into a document tree.

pub mod chars;
pub mod tokenizer;
pub mod dom;
pub mod css;
