//! The library's own model of a parsed TOML document, and the trusted
//! boundary to the toml crate that produces and consumes it.

use crate::error::Error;
use crate::strutil::str_eq;
use vstd::prelude::*;

verus! {

/// A parsed TOML document as plain values. Tables keep their entries in the
/// order the parser handed them out; the parser guarantees unique keys.
/// Float and datetime scalars are carried as their textual rendering.
#[derive(Debug)]
pub enum TomlNode {
    Str(String),
    Int(i64),
    Bool(bool),
    Arr(Vec<TomlNode>),
    Table(Vec<(String, TomlNode)>),
}

/// The value under `key` in a table's entries: the first match.
pub open spec fn table_get(entries: Seq<(String, TomlNode)>, key: Seq<char>) -> Option<TomlNode>
    decreases entries.len(),
{
    if entries.len() == 0 {
        None
    } else if entries[0].0@ == key {
        Some(entries[0].1)
    } else {
        table_get(entries.drop_first(), key)
    }
}

/// Looks a key up in a table's entries.
pub fn node_table_get<'a>(entries: &'a Vec<(String, TomlNode)>, key: &str) -> (r: Option<
    &'a TomlNode,
>)
    ensures
        (match table_get(entries@, key@) {
            Some(n) => r matches Some(m) && *m == n,
            None => r is None,
        }),
{
    let n = entries.len();
    let mut i: usize = 0;
    assert(entries@.skip(0) =~= entries@);
    while i < n
        invariant
            i <= n,
            n == entries@.len(),
            table_get(entries@, key@) == table_get(entries@.skip(i as int), key@),
        decreases n - i,
    {
        assert(entries@.skip(i as int)[0] == entries@[i as int]);
        if str_eq(entries[i].0.as_str(), key) {
            return Some(&entries[i].1);
        }
        assert(entries@.skip(i as int).drop_first() =~= entries@.skip(i + 1));
        i = i + 1;
    }
    assert(entries@.skip(n as int).len() == 0);
    None
}

// ---------------------------------------------------------------------------
// Trusted boundary to the toml crate
// ---------------------------------------------------------------------------

#[verifier::external_type_specification]
#[verifier::external_body]
pub struct ExTomlValue(toml::Value);

/// What the toml crate parses a document text to, as the library's node
/// model: the parsed document, or nothing when the text is not valid TOML.
/// The parse depends on the text alone (the crate's tables are ordered
/// maps under its default features).
pub uninterp spec fn toml_doc_of(text: Seq<char>) -> Option<TomlNode>;

/// What the toml crate serializes a document node to: the document text,
/// or nothing when the node cannot stand as a document (a non-table
/// root). The rendering depends on the node alone.
pub uninterp spec fn toml_text_of(node: TomlNode) -> Option<Seq<char>>;

/// Relies on toml::from_str: parses the text as a TOML document, rebuilt
/// as the library's node model through the converter below. A failure
/// carries the parser's diagnostic.
#[verifier::external_body]
pub fn parse_toml_node(text: &str) -> (r: Result<TomlNode, String>)
    ensures
        r is Ok <==> toml_doc_of(text@) is Some,
        r matches Ok(n) ==> toml_doc_of(text@) == Some(n),
{
    match toml::from_str::<toml::Value>(text) {
        Ok(v) => Ok(toml_value_to_node(&v)),
        Err(e) => Err(e.to_string()),
    }
}

/// Relies on toml::Value's variants: rebuilds a parsed document as the
/// library's node type, one arm per variant, for the parse wrapper above;
/// float and datetime scalars arrive as their textual rendering.
#[verifier::external_body]
fn toml_value_to_node(v: &toml::Value) -> TomlNode {
    match v {
        toml::Value::String(s) => TomlNode::Str(s.clone()),
        toml::Value::Integer(i) => TomlNode::Int(*i),
        toml::Value::Float(x) => TomlNode::Str(x.to_string()),
        toml::Value::Boolean(b) => TomlNode::Bool(*b),
        toml::Value::Datetime(d) => TomlNode::Str(d.to_string()),
        toml::Value::Array(a) => TomlNode::Arr(a.iter().map(toml_value_to_node).collect()),
        toml::Value::Table(t) => TomlNode::Table(
            t.iter().map(|(k, x)| (k.clone(), toml_value_to_node(x))).collect(),
        ),
    }
}

/// Relies on toml::to_string_pretty: renders a document node as TOML text
/// through the converter below, or yields the serializer's diagnostic.
#[verifier::external_body]
fn node_to_toml_text(n: &TomlNode) -> (r: Result<String, String>)
    ensures
        r is Ok <==> toml_text_of(*n) is Some,
        r matches Ok(s) ==> toml_text_of(*n) == Some(s@),
{
    match toml::to_string_pretty(&node_to_toml_value(n)) {
        Ok(s) => Ok(s),
        Err(e) => Err(e.to_string()),
    }
}

/// Relies on toml::Value's constructors: rebuilds a node as a TOML value,
/// one arm per variant, for the serializer wrapper above; textual scalars
/// become TOML strings.
#[verifier::external_body]
fn node_to_toml_value(n: &TomlNode) -> toml::Value {
    match n {
        TomlNode::Str(s) => toml::Value::String(s.clone()),
        TomlNode::Int(i) => toml::Value::Integer(*i),
        TomlNode::Bool(b) => toml::Value::Boolean(*b),
        TomlNode::Arr(a) => toml::Value::Array(a.iter().map(node_to_toml_value).collect()),
        TomlNode::Table(t) => toml::Value::Table(
            t.iter().map(|(k, x)| (k.clone(), node_to_toml_value(x))).collect(),
        ),
    }
}

/// Serializes a document node as TOML text; a serializer failure becomes
/// an input/output error.
pub fn node_to_document_text(node: &TomlNode) -> (r: Result<String, Error>)
    ensures
        r is Ok <==> toml_text_of(*node) is Some,
        r matches Ok(s) ==> toml_text_of(*node) == Some(s@),
        r matches Err(e) ==> e matches Error::IoError { .. },
{
    match node_to_toml_text(node) {
        Ok(s) => Ok(s),
        Err(detail) => Err(Error::IoError { detail }),
    }
}

} // verus!
