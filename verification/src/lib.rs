//! Front end of a small Scheme-like language: a lexer that turns source text
//! into tokens, a datum reader that parses tokens into a tree of literal
//! forms, and an expander that rewrites that tree into a typed core AST.

pub mod core_former;
pub mod datum;
pub mod eval;
pub mod mir;
pub mod value;
pub mod expander;
pub mod primsyn;
pub mod read;
pub mod roundtrip;
pub mod token;
