//! Context-aware value selector for a configuration language with nested
//! scoping constructs.
//!
//! The library locates the values addressed by an attribute path inside a
//! parsed document, composing the search across `with`-style dynamic
//! environments and `let`-style lexical binding groups, and reports every
//! match together with the innermost scope construct it was found under and
//! its byte range in the original text.

pub mod engine;
pub mod error;
pub mod laws;
pub mod path;
pub mod pattern;
pub mod scope;
pub mod parse;
pub mod select;
pub mod tree;
