//! A style-convention checker for GDScript source files.
//!
//! The crate works on a plain model of a parsed syntax tree ([`tree::SynNode`]):
//! each node carries its kind tag, byte span, decoded text and children. A
//! small declarative query framework ([`query_struct`]) matches tree patterns
//! against such a tree and decodes the matches into typed records, and four
//! style checks ([`lint`]) turn those records into structured diagnostics
//! ([`diag::Diagnostic`]). Parsing source text into the tree model, file
//! discovery and rendering of diagnostics are left to the surrounding
//! application.

pub mod diag;
pub mod lint;
pub mod query_struct;
pub mod tree;
