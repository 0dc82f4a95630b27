//! TOML documents.

use vstd::prelude::*;
use crate::error::ConfigError;
use crate::node::{ConfigNode, Table};
use crate::tree::Tree;
use crate::number::{format_signed, signed_decimal};
use crate::text::{bool_text, format_bool};

verus! {

/// The type `toml::Value`, of which nothing is said.
#[verifier::external_type_specification]
#[verifier::external_body]
pub struct ExTomlValue(toml::Value);

/// The type `toml::de::Error`, of which nothing is said.
#[verifier::external_type_specification]
#[verifier::external_body]
pub struct ExTomlError(toml::de::Error);

/// A TOML value as the parser hands it out, held as plain values. A float
/// and a date-time are held by their text.
#[derive(Debug)]
pub enum TomlTree {
    Text(String),
    Integer(i64),
    Float(String),
    Boolean(bool),
    Datetime(String),
    Array(Vec<TomlTree>),
    Table(Vec<TomlField>),
}

/// One entry of a TOML table.
#[derive(Debug)]
pub struct TomlField {
    pub key: String,
    pub value: TomlTree,
}

/// The TOML value that a text is parsed to, if it is a TOML document.
pub uninterp spec fn toml_document(text: Seq<char>) -> Option<TomlTree>;

/// A value of `toml` as a [`TomlTree`]: variant by variant, a float and a
/// date-time by their display text.
#[verifier::external_body]
fn toml_tree(value: toml::Value) -> (tree: TomlTree) {
    match value {
        toml::Value::String(text) => TomlTree::Text(text),
        toml::Value::Integer(number) => TomlTree::Integer(number),
        toml::Value::Float(number) => TomlTree::Float(number.to_string()),
        toml::Value::Boolean(flag) => TomlTree::Boolean(flag),
        toml::Value::Datetime(moment) => TomlTree::Datetime(moment.to_string()),
        toml::Value::Array(items) => TomlTree::Array(items.into_iter().map(toml_tree).collect()),
        toml::Value::Table(map) => TomlTree::Table(map.into_iter().map(toml_field).collect()),
    }
}

/// An entry of a table of `toml` as a [`TomlField`].
#[verifier::external_body]
fn toml_field(entry: (String, toml::Value)) -> (field: TomlField) {
    TomlField { key: entry.0, value: toml_tree(entry.1) }
}

/// `toml::from_str`: the value that the document is parsed to, or why it is
/// no TOML. The outcome depends on the text alone.
#[verifier::external_body]
fn read_toml(input: &str) -> (parsed: Result<TomlTree, toml::de::Error>)
    ensures
        match parsed {
            Ok(tree) => toml_document(input@) == Some(tree),
            Err(_) => toml_document(input@) is None,
        },
{
    toml::from_str::<toml::Value>(input).map(toml_tree)
}

/// The display text of an error of `toml`.
#[verifier::external_body]
fn toml_error_text(error: &toml::de::Error) -> (text: String) {
    error.to_string()
}

/// The mapping made of the first `n` entries of a table; of two entries
/// with one key the later counts.
pub open spec fn toml_fields(fields: Seq<TomlField>, n: nat) -> Map<Seq<char>, Tree>
    decreases fields, n,
{
    if n == 0 || n > fields.len() {
        Map::empty()
    } else {
        toml_fields(fields, (n - 1) as nat).insert(fields[n - 1].key@, toml_node(fields[n - 1].value))
    }
}

/// The configuration tree of a TOML value: a string, a number, a truth
/// value or a date-time as a scalar with its text, an array as an array and
/// a table as a table.
pub open spec fn toml_node(value: TomlTree) -> Tree
    decreases value, 0nat,
{
    match value {
        TomlTree::Text(text) => Tree::Scalar(text@),
        TomlTree::Integer(number) => Tree::Scalar(signed_decimal(number as int)),
        TomlTree::Float(text) => Tree::Scalar(text@),
        TomlTree::Boolean(flag) => Tree::Scalar(bool_text(flag)),
        TomlTree::Datetime(text) => Tree::Scalar(text@),
        TomlTree::Table(fields) => Tree::Table(toml_fields(fields@, fields@.len())),
        TomlTree::Array(items) => Tree::Array(
            Seq::new(
                items.len() as nat,
                |i: int|
                    if 0 <= i < items.len() {
                        toml_node(items[i])
                    } else {
                        Tree::Null
                    },
            ),
        ),
    }
}

/// Turns a TOML value into a configuration tree.
#[verifier::loop_isolation(false)]
pub fn convert(value: &TomlTree) -> (node: ConfigNode)
    ensures
        node@ == toml_node(*value),
    decreases value,
{
    match value {
        TomlTree::Text(text) => ConfigNode::Scalar(text.clone()),
        TomlTree::Integer(number) => ConfigNode::Scalar(format_signed(*number as i128)),
        TomlTree::Float(text) => ConfigNode::Scalar(text.clone()),
        TomlTree::Boolean(flag) => ConfigNode::Scalar(format_bool(*flag)),
        TomlTree::Datetime(text) => ConfigNode::Scalar(text.clone()),
        TomlTree::Table(fields) => {
            let mut table = Table::new();
            let mut i: usize = 0;
            while i < fields.len()
                invariant
                    i <= fields@.len(),
                    table@ == toml_fields(fields@, i as nat),
                decreases fields@.len() - i,
            {
                let field = &fields[i];
                let inner = convert(&field.value);
                table.insert(field.key.clone(), inner);
                i = i + 1;
            }
            ConfigNode::Table(table)
        },
        TomlTree::Array(items) => {
            let mut nodes: Vec<ConfigNode> = Vec::new();
            let mut i: usize = 0;
            while i < items.len()
                invariant
                    i <= items@.len(),
                    nodes@.len() == i,
                    forall|j: int| 0 <= j < i ==> (#[trigger] nodes@[j])@ == toml_node(items@[j]),
                decreases items@.len() - i,
            {
                nodes.push(convert(&items[i]));
                i = i + 1;
            }
            assert(ConfigNode::Array(nodes)@->Array_0 =~= toml_node(*value)->Array_0);
            ConfigNode::Array(nodes)
        },
    }
}

/// Parses a TOML document into a configuration tree.
pub fn parse(input: &str) -> (parsed: Result<ConfigNode, ConfigError>)
    ensures
        match toml_document(input@) {
            Some(tree) => parsed matches Ok(node) && node@ == toml_node(tree),
            None => parsed matches Err(ConfigError::Toml(_)),
        },
{
    match read_toml(input) {
        Ok(tree) => Ok(convert(&tree)),
        Err(error) => Err(ConfigError::Toml(toml_error_text(&error))),
    }
}

} // verus!
