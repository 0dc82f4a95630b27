//! JSON documents.

use vstd::prelude::*;
use crate::error::ConfigError;
use crate::node::{ConfigNode, Table};
use crate::tree::Tree;
use crate::text::{bool_text, format_bool};

verus! {

/// The type `jzon::JsonValue`, of which nothing is said.
#[verifier::external_type_specification]
#[verifier::external_body]
pub struct ExJsonValue(jzon::JsonValue);

/// The type `jzon::Error`, of which nothing is said.
#[verifier::external_type_specification]
#[verifier::external_body]
pub struct ExJsonError(jzon::Error);

/// A JSON value as the parser hands it out, held as plain values. A number
/// is held by its text.
#[derive(Debug)]
pub enum JsonTree {
    Null,
    Short(String),
    Text(String),
    Number(String),
    Boolean(bool),
    Object(Vec<JsonField>),
    Array(Vec<JsonTree>),
}

/// One member of a JSON object.
#[derive(Debug)]
pub struct JsonField {
    pub key: String,
    pub value: JsonTree,
}

/// The JSON value that a text is parsed to, if it is JSON.
pub uninterp spec fn json_document(text: Seq<char>) -> Option<JsonTree>;

/// A value of `jzon` as a [`JsonTree`]: variant by variant, a short string
/// as a string and a number by its display text.
#[verifier::external_body]
fn json_tree(value: jzon::JsonValue) -> (tree: JsonTree) {
    match value {
        jzon::JsonValue::Null => JsonTree::Null,
        jzon::JsonValue::Short(short) => JsonTree::Short(short.to_string()),
        jzon::JsonValue::String(text) => JsonTree::Text(text),
        jzon::JsonValue::Number(number) => JsonTree::Number(number.to_string()),
        jzon::JsonValue::Boolean(flag) => JsonTree::Boolean(flag),
        jzon::JsonValue::Object(map) => JsonTree::Object(map.into_iter().map(json_field).collect()),
        jzon::JsonValue::Array(items) => JsonTree::Array(items.into_iter().map(json_tree).collect()),
    }
}

/// A member of an object of `jzon` as a [`JsonField`].
#[verifier::external_body]
fn json_field(member: (String, jzon::JsonValue)) -> (field: JsonField) {
    JsonField { key: member.0, value: json_tree(member.1) }
}

/// `jzon::parse`: the value that the text is parsed to, or why it is no
/// JSON. The outcome depends on the text alone.
#[verifier::external_body]
fn read_json(input: &str) -> (parsed: Result<JsonTree, jzon::Error>)
    ensures
        match parsed {
            Ok(tree) => json_document(input@) == Some(tree),
            Err(_) => json_document(input@) is None,
        },
{
    jzon::parse(input).map(json_tree)
}

/// The display text of an error of `jzon`.
#[verifier::external_body]
fn json_error_text(error: &jzon::Error) -> (text: String) {
    error.to_string()
}

/// The mapping made of the first `n` members of an object; of two members
/// with one key the later counts.
pub open spec fn json_fields(fields: Seq<JsonField>, n: nat) -> Map<Seq<char>, Tree>
    decreases fields, n,
{
    if n == 0 || n > fields.len() {
        Map::empty()
    } else {
        json_fields(fields, (n - 1) as nat).insert(fields[n - 1].key@, json_node(fields[n - 1].value))
    }
}

/// The configuration tree of a JSON value: null as null, a string, a
/// number or a truth value as a scalar with its text, an array as an array
/// and an object as a table.
pub open spec fn json_node(value: JsonTree) -> Tree
    decreases value, 0nat,
{
    match value {
        JsonTree::Null => Tree::Null,
        JsonTree::Short(text) => Tree::Scalar(text@),
        JsonTree::Text(text) => Tree::Scalar(text@),
        JsonTree::Number(text) => Tree::Scalar(text@),
        JsonTree::Boolean(flag) => Tree::Scalar(bool_text(flag)),
        JsonTree::Object(fields) => Tree::Table(json_fields(fields@, fields@.len())),
        JsonTree::Array(items) => Tree::Array(
            Seq::new(
                items.len() as nat,
                |i: int|
                    if 0 <= i < items.len() {
                        json_node(items[i])
                    } else {
                        Tree::Null
                    },
            ),
        ),
    }
}

/// Turns a JSON value into a configuration tree.
#[verifier::loop_isolation(false)]
pub fn convert(value: &JsonTree) -> (node: ConfigNode)
    ensures
        node@ == json_node(*value),
    decreases value,
{
    match value {
        JsonTree::Null => ConfigNode::Null,
        JsonTree::Short(text) => ConfigNode::Scalar(text.clone()),
        JsonTree::Text(text) => ConfigNode::Scalar(text.clone()),
        JsonTree::Number(text) => ConfigNode::Scalar(text.clone()),
        JsonTree::Boolean(flag) => ConfigNode::Scalar(format_bool(*flag)),
        JsonTree::Object(fields) => {
            let mut table = Table::new();
            let mut i: usize = 0;
            while i < fields.len()
                invariant
                    i <= fields@.len(),
                    table@ == json_fields(fields@, i as nat),
                decreases fields@.len() - i,
            {
                let field = &fields[i];
                let inner = convert(&field.value);
                table.insert(field.key.clone(), inner);
                i = i + 1;
            }
            ConfigNode::Table(table)
        },
        JsonTree::Array(items) => {
            let mut nodes: Vec<ConfigNode> = Vec::new();
            let mut i: usize = 0;
            while i < items.len()
                invariant
                    i <= items@.len(),
                    nodes@.len() == i,
                    forall|j: int| 0 <= j < i ==> (#[trigger] nodes@[j])@ == json_node(items@[j]),
                decreases items@.len() - i,
            {
                nodes.push(convert(&items[i]));
                i = i + 1;
            }
            assert(ConfigNode::Array(nodes)@->Array_0 =~= json_node(*value)->Array_0);
            ConfigNode::Array(nodes)
        },
    }
}

/// Parses a JSON text into a configuration tree.
pub fn parse(input: &str) -> (parsed: Result<ConfigNode, ConfigError>)
    ensures
        match json_document(input@) {
            Some(tree) => parsed matches Ok(node) && node@ == json_node(tree),
            None => parsed matches Err(ConfigError::Json(_)),
        },
{
    match read_json(input) {
        Ok(tree) => Ok(convert(&tree)),
        Err(error) => Err(ConfigError::Json(json_error_text(&error))),
    }
}

} // verus!
