//! A TOML document as plain values: what the `toml` crate parses, held in a
//! tree that the configuration schema can read.
use vstd::prelude::*;

use crate::text::key_lt;

verus! {

#[verifier::external_type_specification]
#[verifier::external_body]
pub struct ExTomlValue(toml::Value);

/// One TOML value. Tables keep their entries in the order the parser yields
/// them. A float, which the configuration never accepts, is kept as the text
/// serde's `Unexpected::Float` gives it in error messages, and a datetime as
/// its text.
pub enum TomlNode {
    Text(String),
    Integer(i64),
    Boolean(bool),
    Array(Vec<TomlNode>),
    Table(Vec<(String, TomlNode)>),
    Float(String),
    Datetime(String),
}

/// The keys of `entries` ascend strictly.
pub open spec fn keys_ascending(entries: Seq<(String, TomlNode)>) -> bool {
    forall|i: int, j: int|
        0 <= i < j < entries.len() ==> key_lt(#[trigger] entries[i].0@, #[trigger] entries[j].0@)
}

/// The top-level table's keys ascend, and so do those of every table that is a
/// value of it.
pub open spec fn document_ordered(doc: TomlNode) -> bool {
    match doc {
        TomlNode::Table(entries) => {
            &&& keys_ascending(entries@)
            &&& forall|i: int|
                0 <= i < entries@.len() ==> match #[trigger] entries@[i].1 {
                    TomlNode::Table(inner) => keys_ascending(inner@),
                    _ => true,
                }
        },
        _ => false,
    }
}

/// What `toml::from_str::<toml::Table>` yields for `source`: the document, or
/// the text of its error.
pub uninterp spec fn toml_document(source: Seq<char>) -> Result<TomlNode, Seq<char>>;

/// Parses `source` as a TOML document with `toml::from_str::<toml::Table>`.
///
/// Trusted: the result is the named document `toml_document(source)`. A
/// document is a table (`toml::Table`), whose map is a `BTreeMap` (the crate's
/// `preserve_order` feature is off), so the entries of every table come out in
/// ascending key order, which is what `document_ordered` says of the top two
/// levels.
#[verifier::external_body]
pub(crate) fn parse_document(source: &str) -> (r: Result<TomlNode, String>)
    ensures
        match r {
            Ok(doc) => toml_document(source@) == Ok::<TomlNode, Seq<char>>(doc) && document_ordered(
                doc,
            ),
            Err(message) => toml_document(source@) == Err::<TomlNode, Seq<char>>(message@),
        },
{
    match toml::from_str::<toml::Table>(source) {
        Ok(table) => Ok(node_of(toml::Value::Table(table))),
        Err(error) => Err(error.to_string()),
    }
}

/// Moves a `toml::Value` into a `TomlNode`, variant by variant (a float
/// through `serde::de::Unexpected::Float`'s text, a datetime through its
/// `Display`). It is the conversion half of `parse_document` and promises
/// nothing of its own.
#[verifier::external_body]
fn node_of(value: toml::Value) -> TomlNode {
    match value {
        toml::Value::String(text) => TomlNode::Text(text),
        toml::Value::Integer(number) => TomlNode::Integer(number),
        toml::Value::Boolean(flag) => TomlNode::Boolean(flag),
        toml::Value::Array(items) => TomlNode::Array(items.into_iter().map(node_of).collect()),
        toml::Value::Table(table) => TomlNode::Table(
            table.into_iter().map(|(key, item)| (key, node_of(item))).collect(),
        ),
        toml::Value::Float(number) => TomlNode::Float(serde::de::Unexpected::Float(number).to_string()),
        toml::Value::Datetime(moment) => TomlNode::Datetime(moment.to_string()),
    }
}

} // verus!
