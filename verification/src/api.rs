//! The two entry points: parse-and-encode as a `Result`, and a record
//! variant whose fields can be read one by one across a call boundary.

use vstd::prelude::*;

use crate::encode::encoding;
use crate::encode::lemma_encoding_nonempty;
use crate::encode::sk_tree_to_bcl;
use crate::parse::parse_full;
use crate::parse::spec_parse;
use crate::tree::SKCombinator;

verus! {

/// The bit-string a source text converts to, if it parses.
pub open spec fn spec_convert(s: Seq<char>) -> Option<Seq<char>> {
    match spec_parse(s) {
        Some(t) => Some(encoding(t)),
        None => None,
    }
}

/// Parse an SK expression and serialise it to its BCL bit-string, or render
/// the syntax error as a position-annotated diagnostic.
pub fn sk_to_bcl(s: &str) -> (r: Result<String, String>)
    ensures
        (match spec_convert(s@) {
            Some(bits) => r matches Ok(b) && b@ == bits && bits.len() >= 2,
            None => r matches Err(m) && m@.len() > 0,
        }),
{
    match parse_full(s) {
        Ok(tree) => {
            proof {
                lemma_encoding_nonempty(tree@);
            }
            Ok(sk_tree_to_bcl(&tree))
        },
        Err(e) => Err(e.message()),
    }
}

/// The outcome of a parse, flattened into independently observable fields
/// for callers that cannot take a rich sum type across their boundary:
/// on success the tree and its non-empty bit-string with an empty error
/// message, on failure an empty bit-string with a non-empty message.
pub struct SKParseResult {
    pub tree: Option<SKCombinator>,
    pub bcl: String,
    pub error_msg: String,
}

impl SKParseResult {
    /// Parse and encode `s`, keeping every observable outcome in one record.
    /// Exactly one of the bit-string and the error message is non-empty.
    pub fn parse(s: &str) -> (r: SKParseResult)
        ensures
            (match spec_convert(s@) {
                Some(bits) => {
                    &&& r.tree matches Some(t) && spec_parse(s@) == Some(t@)
                    &&& r.bcl@ == bits
                    &&& r.bcl@.len() > 0
                    &&& r.error_msg@.len() == 0
                },
                None => {
                    &&& r.tree is None
                    &&& r.bcl@.len() == 0
                    &&& r.error_msg@.len() > 0
                },
            }),
    {
        match parse_full(s) {
            Ok(tree) => {
                proof {
                    lemma_encoding_nonempty(tree@);
                }
                let bcl = sk_tree_to_bcl(&tree);
                SKParseResult { tree: Some(tree), bcl, error_msg: String::new() }
            },
            Err(e) => SKParseResult {
                tree: None,
                bcl: String::new(),
                error_msg: e.message(),
            },
        }
    }

    /// The bit-string: the encoding on success, empty on failure.
    pub fn bcl(&self) -> (r: String)
        ensures
            r@ == self.bcl@,
    {
        self.bcl.clone()
    }

    /// The diagnostic: empty on success, the rendered error on failure.
    pub fn error_msg(&self) -> (r: String)
        ensures
            r@ == self.error_msg@,
    {
        self.error_msg.clone()
    }
}

} // verus!
