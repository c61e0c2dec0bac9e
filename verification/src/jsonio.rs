//! The trusted boundary to serde_json: JSON text in and out of the library's
//! node tree. Both directions are functions of their arguments alone, so each
//! is named and the contracts downstream speak of the names exactly.

use vstd::prelude::*;
use crate::node::{Node, Val};
use crate::store::val_wf;

verus! {

#[verifier::external_type_specification]
#[verifier::external_body]
pub struct ExJsonValue(serde_json::Value);

/// The node a JSON text denotes, or nothing: what parsing the text and
/// mapping each JSON shape to its node yields. A function of the text alone.
pub uninterp spec fn json_doc_of(s: Seq<char>) -> Option<Val>;

/// The JSON text a node prints as. A function of the value alone (mapping
/// entries keep their order through the boundary).
pub uninterp spec fn json_text_of(v: Val) -> Seq<char>;

/// Relies on `serde_json::Value`'s closed variant set, `Number::as_i64`
/// (`None` for anything outside the node's integer range), and the uniqueness
/// of keys in `serde_json::Map`: converts a generic JSON value into a node,
/// one variant for one, so the node is well formed.
#[verifier::external_body]
fn json_to_node(v: serde_json::Value) -> (r: Option<Node>)
    ensures
        r matches Some(n) ==> val_wf(n@),
{
    match v {
        serde_json::Value::Null => Some(Node::Null),
        serde_json::Value::Bool(b) => Some(Node::Bool(b)),
        serde_json::Value::Number(x) => Some(Node::Int(x.as_i64()?)),
        serde_json::Value::String(s) => Some(Node::Text(s)),
        serde_json::Value::Array(a) => Some(Node::Arr(a.into_iter().map(json_to_node).collect::<Option<Vec<Node>>>()?)),
        serde_json::Value::Object(m) => Some(Node::Obj(m.into_iter().map(|(k, x)| Some((k, json_to_node(x)?))).collect::<Option<Vec<(String, Node)>>>()?)),
    }
}

/// Relies on `serde_json::Value` construction: converts a node into the
/// generic JSON value, one variant for one, keeping mapping entry order.
#[verifier::external_body]
fn node_to_json(n: &Node) -> (r: serde_json::Value) {
    match n {
        Node::Null => serde_json::Value::Null,
        Node::Bool(b) => serde_json::Value::Bool(*b),
        Node::Int(x) => serde_json::Value::Number((*x).into()),
        Node::Text(s) => serde_json::Value::String(s.clone()),
        Node::Arr(es) => serde_json::Value::Array(es.iter().map(node_to_json).collect()),
        Node::Obj(fs) => serde_json::Value::Object(
            fs.iter().map(|(k, v)| (k.clone(), node_to_json(v))).collect(),
        ),
    }
}

/// Relies on `serde_json::from_str` (malformed text is an error, never a
/// panic) and the one-for-one node conversion above: the node the text
/// denotes. `None` exactly on malformed JSON or on numbers outside the node
/// range; a returned node is always well formed.
#[verifier::external_body]
pub fn text_to_node(s: &str) -> (r: Option<Node>)
    ensures
        r matches Some(n) ==> json_doc_of(s@) == Some(n@) && val_wf(n@),
        r is None ==> json_doc_of(s@) is None,
{
    json_to_node(serde_json::from_str::<serde_json::Value>(s).ok()?)
}

/// Relies on `serde_json::to_string` (it cannot fail on values built of these
/// variants, and prints any depth) and the one-for-one node conversion above:
/// prints the node as JSON text. serde_json parses its own output back to the
/// same value, but its parser refuses documents whose containers nest beyond
/// its recursion limit of 128 levels; so with mapping order kept through the
/// boundary and the node's integers confined to the range its numbers
/// round-trip exactly, a printed well-formed node within that nesting bound
/// is the node its text denotes.
#[verifier::external_body]
pub fn node_to_text(n: &Node) -> (r: String)
    ensures
        r@ == json_text_of(n@),
        val_wf(n@) && crate::node::val_depth(n@) <= 126 ==> json_doc_of(r@) == Some(n@),
{
    serde_json::to_string(&node_to_json(n)).unwrap_or_default()
}

} // verus!
