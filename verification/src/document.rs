//! The tree that `nix flake show --json` prints, and how it is read.

use crate::error::GarnixError;
use crate::text::same_text;
use vstd::prelude::*;

verus! {

/// One node of a JSON document. A number keeps no value: nothing here reads
/// it. A mapping keeps its entries in the order in which they are walked.
#[derive(Debug, PartialEq, Eq)]
pub enum Node {
    Null,
    Bool(bool),
    Number,
    Text(String),
    Sequence(Vec<Node>),
    Mapping(Vec<(String, Node)>),
}

/// The entries of a mapping; any other node has none.
pub open spec fn entries_of(node: Node) -> Seq<(String, Node)> {
    match node {
        Node::Mapping(entries) => entries@,
        _ => Seq::empty(),
    }
}

/// The value of the first entry under `key`.
pub open spec fn lookup(entries: Seq<(String, Node)>, key: Seq<char>) -> Option<Node>
    decreases entries.len(),
{
    if entries.len() == 0 {
        None
    } else if entries.first().0@ == key {
        Some(entries.first().1)
    } else {
        lookup(entries.drop_first(), key)
    }
}

/// `serde_json::Error`, the error of the JSON parser; nothing is known of
/// what it holds.
#[verifier::external_type_specification]
#[verifier::external_body]
pub struct ExJsonError(serde_json::Error);

/// `serde_json::Value`, a parsed JSON document; what it holds is named by
/// `value_tree`.
#[verifier::external_type_specification]
#[verifier::external_body]
pub struct ExJsonValue(serde_json::Value);

/// The document that `text` denotes, where `text` is valid JSON: what
/// `serde_json::from_str` reads from it, as a `Node`.
pub uninterp spec fn json_document(text: Seq<char>) -> Option<Node>;

/// The tree that a `serde_json::Value` holds, as a `Node`.
pub uninterp spec fn value_tree(value: serde_json::Value) -> Node;

/// Calls `serde_json::from_str` for a `serde_json::Value`. Whether it succeeds,
/// and the tree of the value it gives, depend on `text` alone.
#[verifier::external_body]
fn parse_value(text: &str) -> (parsed: Result<serde_json::Value, serde_json::Error>)
    ensures
        parsed is Ok <==> json_document(text@) is Some,
        parsed matches Ok(value) ==> json_document(text@) == Some(value_tree(value)),
{
    serde_json::from_str::<serde_json::Value>(text)
}

/// Moves the tree out of a `serde_json::Value`, variant by variant; an
/// object's entries come in the order in which `serde_json::Map` hands them out.
#[verifier::external_body]
fn node_of(value: serde_json::Value) -> (node: Node)
    ensures
        node == value_tree(value),
{
    match value {
        serde_json::Value::Null => Node::Null,
        serde_json::Value::Bool(flag) => Node::Bool(flag),
        serde_json::Value::Number(_) => Node::Number,
        serde_json::Value::String(text) => Node::Text(text),
        serde_json::Value::Array(items) => Node::Sequence(items.into_iter().map(node_of).collect()),
        serde_json::Value::Object(fields) => Node::Mapping(
            fields.into_iter().map(|(key, item)| (key, node_of(item))).collect(),
        ),
    }
}

/// Reads a JSON document. Text that is not valid JSON gives
/// `GarnixError::Json` with the parser's message.
pub fn parse_document(text: &str) -> (parsed: Result<Node, GarnixError>)
    ensures
        match json_document(text@) {
            Some(document) => parsed == Ok::<Node, GarnixError>(document),
            None => parsed matches Err(GarnixError::Json(_)),
        },
{
    match parse_value(text) {
        Ok(value) => Ok(node_of(value)),
        Err(error) => Err(GarnixError::Json(error.to_string())),
    }
}

impl Node {
    /// The value of a mapping's first entry under `key`; a node that is no
    /// mapping has none.
    pub fn get(&self, key: &str) -> (found: Option<&Node>)
        ensures
            match lookup(entries_of(*self), key@) {
                Some(node) => found == Some(&node),
                None => found is None,
            },
    {
        match self {
            Node::Mapping(entries) => {
                let mut i: usize = 0;
                proof {
                    assert(entries@.skip(0) =~= entries@);
                }
                while i < entries.len()
                    invariant
                        i <= entries.len(),
                        entries_of(*self) == entries@,
                        lookup(entries@, key@) == lookup(entries@.skip(i as int), key@),
                    decreases entries.len() - i,
                {
                    proof {
                        assert(entries@.skip(i as int).drop_first() =~= entries@.skip(i + 1));
                        assert(entries@.skip(i as int).first() == entries@[i as int]);
                    }
                    if same_text(entries[i].0.as_str(), key) {
                        return Some(&entries[i].1);
                    }
                    i += 1;
                }
                None
            },
            _ => None,
        }
    }
}

} // verus!
