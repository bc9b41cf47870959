//! Parsing and binary encoding of SK combinator expressions.
//!
//! A source string over the grammar `item := 'S' | 'K' | '(' item+ ')'` is
//! parsed into a combinator tree, and the tree is serialised into its
//! Binary Combinatory Logic form: a string of `0` and `1` characters where
//! `S` encodes as `01`, `K` as `00`, and an application of `n + 1` trees as
//! `n` leading `1`s followed by the children's encodings.

pub mod tree;
pub mod encode;
pub mod error;
pub mod parse;
pub mod api;
pub mod laws;

pub use api::SKParseResult;
pub use api::sk_to_bcl;
pub use parse::parse_full;
pub use tree::SKCombinator;
pub use tree::SkTree;
