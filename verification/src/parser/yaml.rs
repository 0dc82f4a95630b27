//! YAML documents.

use vstd::prelude::*;
use crate::error::ConfigError;
use crate::node::{ConfigNode, Table};
use crate::tree::Tree;
use crate::number::{format_signed, signed_decimal};
use crate::text::{bool_text, format_bool};

verus! {

/// The type `yaml_rust2::Yaml`, of which nothing is said.
#[verifier::external_type_specification]
#[verifier::external_body]
pub struct ExYaml(yaml_rust2::Yaml);

/// The type `yaml_rust2::ScanError`, of which nothing is said.
#[verifier::external_type_specification]
#[verifier::external_body]
pub struct ExScanError(yaml_rust2::ScanError);

/// A YAML value as the parser hands it out, held as plain values.
#[derive(Debug)]
pub enum YamlTree {
    Real(String),
    Integer(i64),
    Text(String),
    Boolean(bool),
    Array(Vec<YamlTree>),
    Hash(Vec<YamlField>),
    Alias(usize),
    Null,
    BadValue,
}

/// One entry of a YAML mapping: its key, the debug text of the key, and
/// its value.
#[derive(Debug)]
pub struct YamlField {
    pub key: YamlTree,
    pub key_debug: String,
    pub value: YamlTree,
}

/// The YAML documents that a text is parsed to, if it is YAML.
pub uninterp spec fn yaml_documents(text: Seq<char>) -> Option<Seq<YamlTree>>;

/// A value of `yaml_rust2` as a [`YamlTree`], variant by variant.
#[verifier::external_body]
fn yaml_tree(value: yaml_rust2::Yaml) -> (tree: YamlTree) {
    match value {
        yaml_rust2::Yaml::Real(text) => YamlTree::Real(text),
        yaml_rust2::Yaml::Integer(number) => YamlTree::Integer(number),
        yaml_rust2::Yaml::String(text) => YamlTree::Text(text),
        yaml_rust2::Yaml::Boolean(flag) => YamlTree::Boolean(flag),
        yaml_rust2::Yaml::Array(items) => YamlTree::Array(items.into_iter().map(yaml_tree).collect()),
        yaml_rust2::Yaml::Hash(map) => YamlTree::Hash(map.into_iter().map(yaml_field).collect()),
        yaml_rust2::Yaml::Alias(id) => YamlTree::Alias(id),
        yaml_rust2::Yaml::Null => YamlTree::Null,
        yaml_rust2::Yaml::BadValue => YamlTree::BadValue,
    }
}

/// An entry of a mapping of `yaml_rust2` as a [`YamlField`]: key and value
/// as trees, and beside them the debug text of the key.
#[verifier::external_body]
fn yaml_field(entry: (yaml_rust2::Yaml, yaml_rust2::Yaml)) -> (field: YamlField) {
    let key_debug = format!("{:?}", entry.0);
    YamlField { key: yaml_tree(entry.0), key_debug, value: yaml_tree(entry.1) }
}

/// `YamlLoader::load_from_str`: the documents that the text is parsed to,
/// or why it is no YAML. The outcome depends on the text alone.
#[verifier::external_body]
fn read_yaml(input: &str) -> (parsed: Result<Vec<YamlTree>, yaml_rust2::ScanError>)
    ensures
        match parsed {
            Ok(documents) => yaml_documents(input@) == Some(documents@),
            Err(_) => yaml_documents(input@) is None,
        },
{
    yaml_rust2::YamlLoader::load_from_str(input).map(|docs| docs.into_iter().map(yaml_tree).collect())
}

/// The display text of an error of `yaml_rust2`.
#[verifier::external_body]
fn yaml_error_text(error: &yaml_rust2::ScanError) -> (text: String) {
    error.to_string()
}

/// The text under which an entry of a mapping is stored: a string or a
/// real as it is written, an integer in decimal, and a key of any other
/// kind by its debug text.
pub open spec fn key_text(key: YamlTree, key_debug: Seq<char>) -> Seq<char> {
    match key {
        YamlTree::Text(text) => text@,
        YamlTree::Integer(number) => signed_decimal(number as int),
        YamlTree::Real(text) => text@,
        _ => key_debug,
    }
}

/// The mapping made of the first `n` entries of a YAML mapping; of two
/// entries whose keys have one text the later counts.
pub open spec fn yaml_fields(fields: Seq<YamlField>, n: nat) -> Map<Seq<char>, Tree>
    decreases fields, n,
{
    if n == 0 || n > fields.len() {
        Map::empty()
    } else {
        yaml_fields(fields, (n - 1) as nat).insert(
            key_text(fields[n - 1].key, fields[n - 1].key_debug@),
            yaml_node(fields[n - 1].value),
        )
    }
}

/// The configuration tree of a YAML value: null, a bad value and an alias
/// as null, a string, a number or a truth value as a scalar with its text,
/// an array as an array and a mapping as a table.
pub open spec fn yaml_node(value: YamlTree) -> Tree
    decreases value, 0nat,
{
    match value {
        YamlTree::Null => Tree::Null,
        YamlTree::BadValue => Tree::Null,
        YamlTree::Alias(_) => Tree::Null,
        YamlTree::Real(text) => Tree::Scalar(text@),
        YamlTree::Text(text) => Tree::Scalar(text@),
        YamlTree::Boolean(flag) => Tree::Scalar(bool_text(flag)),
        YamlTree::Integer(number) => Tree::Scalar(signed_decimal(number as int)),
        YamlTree::Hash(fields) => Tree::Table(yaml_fields(fields@, fields@.len())),
        YamlTree::Array(items) => Tree::Array(
            Seq::new(
                items.len() as nat,
                |i: int|
                    if 0 <= i < items.len() {
                        yaml_node(items[i])
                    } else {
                        Tree::Null
                    },
            ),
        ),
    }
}

/// The tree of the first document; null where there is none.
pub open spec fn first_document(documents: Seq<YamlTree>) -> Tree {
    if documents.len() == 0 {
        Tree::Null
    } else {
        yaml_node(documents[0])
    }
}

/// The text under which an entry of a mapping is stored, given its key
/// and the debug text of the key.
pub fn scalar_key(key: &YamlTree, key_debug: &str) -> (text: String)
    ensures
        text@ == key_text(*key, key_debug@),
{
    match key {
        YamlTree::Text(text) => text.clone(),
        YamlTree::Integer(number) => format_signed(*number as i128),
        YamlTree::Real(text) => text.clone(),
        _ => key_debug.to_string(),
    }
}

/// Turns a YAML value into a configuration tree.
#[verifier::loop_isolation(false)]
pub fn convert(value: &YamlTree) -> (node: ConfigNode)
    ensures
        node@ == yaml_node(*value),
    decreases value,
{
    match value {
        YamlTree::Null => ConfigNode::Null,
        YamlTree::BadValue => ConfigNode::Null,
        YamlTree::Alias(_) => ConfigNode::Null,
        YamlTree::Real(text) => ConfigNode::Scalar(text.clone()),
        YamlTree::Text(text) => ConfigNode::Scalar(text.clone()),
        YamlTree::Boolean(flag) => ConfigNode::Scalar(format_bool(*flag)),
        YamlTree::Integer(number) => ConfigNode::Scalar(format_signed(*number as i128)),
        YamlTree::Hash(fields) => {
            let mut table = Table::new();
            let mut i: usize = 0;
            while i < fields.len()
                invariant
                    i <= fields@.len(),
                    table@ == yaml_fields(fields@, i as nat),
                decreases fields@.len() - i,
            {
                let field = &fields[i];
                let inner = convert(&field.value);
                table.insert(scalar_key(&field.key, field.key_debug.as_str()), inner);
                i = i + 1;
            }
            ConfigNode::Table(table)
        },
        YamlTree::Array(items) => {
            let mut nodes: Vec<ConfigNode> = Vec::new();
            let mut i: usize = 0;
            while i < items.len()
                invariant
                    i <= items@.len(),
                    nodes@.len() == i,
                    forall|j: int| 0 <= j < i ==> (#[trigger] nodes@[j])@ == yaml_node(items@[j]),
                decreases items@.len() - i,
            {
                nodes.push(convert(&items[i]));
                i = i + 1;
            }
            assert(ConfigNode::Array(nodes)@->Array_0 =~= yaml_node(*value)->Array_0);
            ConfigNode::Array(nodes)
        },
    }
}

/// Parses a YAML text into the configuration tree of its first document.
pub fn parse(input: &str) -> (parsed: Result<ConfigNode, ConfigError>)
    ensures
        match yaml_documents(input@) {
            Some(documents) => parsed matches Ok(node) && node@ == first_document(documents),
            None => parsed matches Err(ConfigError::Yaml(_)),
        },
{
    match read_yaml(input) {
        Ok(documents) => {
            if documents.len() == 0 {
                Ok(ConfigNode::Null)
            } else {
                Ok(convert(&documents[0]))
            }
        },
        Err(error) => Err(ConfigError::Yaml(yaml_error_text(&error))),
    }
}

} // verus!
