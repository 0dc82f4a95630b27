//! Typed values read from nodes.

use vstd::prelude::*;
use vstd::string::StringExecFns;
use crate::error::{ConfigError, Failure};
use crate::node::ConfigNode;
use crate::tree::{kind_name, Tree};
use crate::number::{decimal, format_unsigned, parse_bounded, parse_integer};
use crate::text::{chars_of, same_text};

verus! {

/// Trait implemented by types that can be created from a [`ConfigNode`].
pub trait FromNode: Sized {
    /// Reads a value from `node`; `key` is the name under which failures
    /// are reported.
    fn from_node(node: &ConfigNode, key: &str) -> Result<Self, ConfigError>;
}

/// How reading a scalar fails on a tree that is none: null counts as a
/// missing value, an array or a table as a mismatch that names its kind.
pub open spec fn not_scalar(tree: Tree, key: Seq<char>, expected: Seq<char>) -> Failure {
    match tree {
        Tree::Null => Failure::MissingValue(key),
        other => Failure::TypeMismatch { field: key, expected, found: kind_name(other) },
    }
}

/// The text of a scalar, or how reading it fails.
pub open spec fn scalar_read(tree: Tree, key: Seq<char>, expected: Seq<char>) -> Result<Seq<char>, Failure> {
    match tree {
        Tree::Scalar(text) => Ok(text),
        other => Err(not_scalar(other, key, expected)),
    }
}

/// The integer between `min` and `max` that a scalar denotes, or how
/// reading it fails; `name` is the name of the integer type.
pub open spec fn integer_read(tree: Tree, key: Seq<char>, name: Seq<char>, min: int, max: int) -> Result<
    int,
    Failure,
> {
    match scalar_read(tree, key, name) {
        Ok(text) => match parse_integer(text, min, max) {
            Some(value) => Ok(value),
            None => Err(Failure::TypeMismatch { field: key, expected: name, found: text }),
        },
        Err(failure) => Err(failure),
    }
}

/// The truth value that a scalar denotes, or how reading it fails.
pub open spec fn bool_read(tree: Tree, key: Seq<char>) -> Result<bool, Failure> {
    match scalar_read(tree, key, "bool"@) {
        Ok(text) => if text == "true"@ {
            Ok(true)
        } else if text == "false"@ {
            Ok(false)
        } else {
            Err(Failure::TypeMismatch { field: key, expected: "bool"@, found: text })
        },
        Err(failure) => Err(failure),
    }
}

/// The character that a scalar of one character holds, or how reading it
/// fails.
pub open spec fn char_read(tree: Tree, key: Seq<char>) -> Result<char, Failure> {
    match scalar_read(tree, key, "string"@) {
        Ok(text) => if text.len() == 1 {
            Ok(text[0])
        } else {
            Err(Failure::TypeMismatch { field: key, expected: "character"@, found: text })
        },
        Err(failure) => Err(failure),
    }
}

/// The key under which the item at `index` of the array under `key` is
/// reported: the key, then the index in square brackets.
pub open spec fn item_key(key: Seq<char>, index: nat) -> Seq<char> {
    key + "["@ + decimal(index) + "]"@
}

/// The text of a scalar node.
pub fn read_scalar<'a>(node: &'a ConfigNode, key: &str, expected: &str) -> (outcome: Result<
    &'a String,
    ConfigError,
>)
    ensures
        match scalar_read(node@, key@, expected@) {
            Ok(text) => outcome matches Ok(s) && s@ == text,
            Err(failure) => outcome matches Err(e) && e@ == failure,
        },
{
    match node {
        ConfigNode::Scalar(value) => Ok(value),
        ConfigNode::Null => Err(ConfigError::missing(key)),
        other => Err(ConfigError::mismatch(key, expected, other.kind())),
    }
}

/// The sign and the size of the integer that a scalar node denotes, where
/// the size is at most `limit` for a number that is not negative and at
/// most `floor` for a negative one.
pub fn read_integer(node: &ConfigNode, key: &str, name: &str, floor: u128, limit: u128) -> (outcome: Result<
    (bool, u128),
    ConfigError,
>)
    ensures
        match integer_read(node@, key@, name@, -(floor as int), limit as int) {
            Ok(value) => outcome matches Ok((negative, size)) && value == (if negative {
                -(size as int)
            } else {
                size as int
            }),
            Err(failure) => outcome matches Err(e) && e@ == failure,
        },
{
    match read_scalar(node, key, name) {
        Ok(text) => match parse_bounded(text.as_str(), floor, limit) {
            Some(parts) => Ok(parts),
            None => Err(ConfigError::mismatch(key, name, text.as_str())),
        },
        Err(error) => Err(error),
    }
}

impl FromNode for ConfigNode {
    fn from_node(node: &ConfigNode, key: &str) -> (outcome: Result<ConfigNode, ConfigError>)
        ensures
            outcome matches Ok(copy) && copy@ == node@,
    {
        Ok(node.clone())
    }
}

impl FromNode for String {
    fn from_node(node: &ConfigNode, key: &str) -> (outcome: Result<String, ConfigError>)
        ensures
            match scalar_read(node@, key@, "string"@) {
                Ok(text) => outcome matches Ok(s) && s@ == text,
                Err(failure) => outcome matches Err(e) && e@ == failure,
            },
    {
        match read_scalar(node, key, "string") {
            Ok(text) => Ok(text.clone()),
            Err(error) => Err(error),
        }
    }
}

impl FromNode for bool {
    fn from_node(node: &ConfigNode, key: &str) -> (outcome: Result<bool, ConfigError>)
        ensures
            match bool_read(node@, key@) {
                Ok(flag) => outcome == Ok::<bool, ConfigError>(flag),
                Err(failure) => outcome matches Err(e) && e@ == failure,
            },
    {
        match read_scalar(node, key, "bool") {
            Ok(text) => {
                if same_text(text.as_str(), "true") {
                    Ok(true)
                } else if same_text(text.as_str(), "false") {
                    Ok(false)
                } else {
                    Err(ConfigError::mismatch(key, "bool", text.as_str()))
                }
            },
            Err(error) => Err(error),
        }
    }
}

impl FromNode for char {
    fn from_node(node: &ConfigNode, key: &str) -> (outcome: Result<char, ConfigError>)
        ensures
            match char_read(node@, key@) {
                Ok(ch) => outcome == Ok::<char, ConfigError>(ch),
                Err(failure) => outcome matches Err(e) && e@ == failure,
            },
    {
        match read_scalar(node, key, "string") {
            Ok(text) => {
                let chars = chars_of(text.as_str());
                if chars.len() == 1 {
                    Ok(chars[0])
                } else {
                    Err(ConfigError::mismatch(key, "character", text.as_str()))
                }
            },
            Err(error) => Err(error),
        }
    }
}

impl FromNode for u8 {
    fn from_node(node: &ConfigNode, key: &str) -> (outcome: Result<u8, ConfigError>)
        ensures
            match integer_read(node@, key@, "u8"@, 0, u8::MAX as int) {
                Ok(value) => outcome == Ok::<u8, ConfigError>(value as u8),
                Err(failure) => outcome matches Err(e) && e@ == failure,
            },
    {
        match read_integer(node, key, "u8", 0, u8::MAX as u128) {
            Ok((_, size)) => Ok(size as u8),
            Err(error) => Err(error),
        }
    }
}

impl FromNode for u16 {
    fn from_node(node: &ConfigNode, key: &str) -> (outcome: Result<u16, ConfigError>)
        ensures
            match integer_read(node@, key@, "u16"@, 0, u16::MAX as int) {
                Ok(value) => outcome == Ok::<u16, ConfigError>(value as u16),
                Err(failure) => outcome matches Err(e) && e@ == failure,
            },
    {
        match read_integer(node, key, "u16", 0, u16::MAX as u128) {
            Ok((_, size)) => Ok(size as u16),
            Err(error) => Err(error),
        }
    }
}

impl FromNode for u32 {
    fn from_node(node: &ConfigNode, key: &str) -> (outcome: Result<u32, ConfigError>)
        ensures
            match integer_read(node@, key@, "u32"@, 0, u32::MAX as int) {
                Ok(value) => outcome == Ok::<u32, ConfigError>(value as u32),
                Err(failure) => outcome matches Err(e) && e@ == failure,
            },
    {
        match read_integer(node, key, "u32", 0, u32::MAX as u128) {
            Ok((_, size)) => Ok(size as u32),
            Err(error) => Err(error),
        }
    }
}

impl FromNode for u64 {
    fn from_node(node: &ConfigNode, key: &str) -> (outcome: Result<u64, ConfigError>)
        ensures
            match integer_read(node@, key@, "u64"@, 0, u64::MAX as int) {
                Ok(value) => outcome == Ok::<u64, ConfigError>(value as u64),
                Err(failure) => outcome matches Err(e) && e@ == failure,
            },
    {
        match read_integer(node, key, "u64", 0, u64::MAX as u128) {
            Ok((_, size)) => Ok(size as u64),
            Err(error) => Err(error),
        }
    }
}

impl FromNode for u128 {
    fn from_node(node: &ConfigNode, key: &str) -> (outcome: Result<u128, ConfigError>)
        ensures
            match integer_read(node@, key@, "u128"@, 0, u128::MAX as int) {
                Ok(value) => outcome == Ok::<u128, ConfigError>(value as u128),
                Err(failure) => outcome matches Err(e) && e@ == failure,
            },
    {
        match read_integer(node, key, "u128", 0, u128::MAX as u128) {
            Ok((_, size)) => Ok(size as u128),
            Err(error) => Err(error),
        }
    }
}

impl FromNode for usize {
    fn from_node(node: &ConfigNode, key: &str) -> (outcome: Result<usize, ConfigError>)
        ensures
            match integer_read(node@, key@, "usize"@, 0, usize::MAX as int) {
                Ok(value) => outcome == Ok::<usize, ConfigError>(value as usize),
                Err(failure) => outcome matches Err(e) && e@ == failure,
            },
    {
        match read_integer(node, key, "usize", 0, usize::MAX as u128) {
            Ok((_, size)) => Ok(size as usize),
            Err(error) => Err(error),
        }
    }
}

impl FromNode for i8 {
    fn from_node(node: &ConfigNode, key: &str) -> (outcome: Result<i8, ConfigError>)
        ensures
            match integer_read(node@, key@, "i8"@, i8::MIN as int, i8::MAX as int) {
                Ok(value) => outcome == Ok::<i8, ConfigError>(value as i8),
                Err(failure) => outcome matches Err(e) && e@ == failure,
            },
    {
        match read_integer(node, key, "i8", (i8::MAX as u128) + 1, i8::MAX as u128) {
            Ok((negative, size)) => {
                if !negative {
                    Ok(size as i8)
                } else if size == 0 {
                    Ok(0)
                } else {
                    Ok((-1 - ((size - 1) as i128)) as i8)
                }
            },
            Err(error) => Err(error),
        }
    }
}

impl FromNode for i16 {
    fn from_node(node: &ConfigNode, key: &str) -> (outcome: Result<i16, ConfigError>)
        ensures
            match integer_read(node@, key@, "i16"@, i16::MIN as int, i16::MAX as int) {
                Ok(value) => outcome == Ok::<i16, ConfigError>(value as i16),
                Err(failure) => outcome matches Err(e) && e@ == failure,
            },
    {
        match read_integer(node, key, "i16", (i16::MAX as u128) + 1, i16::MAX as u128) {
            Ok((negative, size)) => {
                if !negative {
                    Ok(size as i16)
                } else if size == 0 {
                    Ok(0)
                } else {
                    Ok((-1 - ((size - 1) as i128)) as i16)
                }
            },
            Err(error) => Err(error),
        }
    }
}

impl FromNode for i32 {
    fn from_node(node: &ConfigNode, key: &str) -> (outcome: Result<i32, ConfigError>)
        ensures
            match integer_read(node@, key@, "i32"@, i32::MIN as int, i32::MAX as int) {
                Ok(value) => outcome == Ok::<i32, ConfigError>(value as i32),
                Err(failure) => outcome matches Err(e) && e@ == failure,
            },
    {
        match read_integer(node, key, "i32", (i32::MAX as u128) + 1, i32::MAX as u128) {
            Ok((negative, size)) => {
                if !negative {
                    Ok(size as i32)
                } else if size == 0 {
                    Ok(0)
                } else {
                    Ok((-1 - ((size - 1) as i128)) as i32)
                }
            },
            Err(error) => Err(error),
        }
    }
}

impl FromNode for i64 {
    fn from_node(node: &ConfigNode, key: &str) -> (outcome: Result<i64, ConfigError>)
        ensures
            match integer_read(node@, key@, "i64"@, i64::MIN as int, i64::MAX as int) {
                Ok(value) => outcome == Ok::<i64, ConfigError>(value as i64),
                Err(failure) => outcome matches Err(e) && e@ == failure,
            },
    {
        match read_integer(node, key, "i64", (i64::MAX as u128) + 1, i64::MAX as u128) {
            Ok((negative, size)) => {
                if !negative {
                    Ok(size as i64)
                } else if size == 0 {
                    Ok(0)
                } else {
                    Ok((-1 - ((size - 1) as i128)) as i64)
                }
            },
            Err(error) => Err(error),
        }
    }
}

impl FromNode for isize {
    fn from_node(node: &ConfigNode, key: &str) -> (outcome: Result<isize, ConfigError>)
        ensures
            match integer_read(node@, key@, "isize"@, isize::MIN as int, isize::MAX as int) {
                Ok(value) => outcome == Ok::<isize, ConfigError>(value as isize),
                Err(failure) => outcome matches Err(e) && e@ == failure,
            },
    {
        match read_integer(node, key, "isize", (isize::MAX as u128) + 1, isize::MAX as u128) {
            Ok((negative, size)) => {
                if !negative {
                    Ok(size as isize)
                } else if size == 0 {
                    Ok(0)
                } else {
                    Ok((-1 - ((size - 1) as i128)) as isize)
                }
            },
            Err(error) => Err(error),
        }
    }
}

impl FromNode for i128 {
    fn from_node(node: &ConfigNode, key: &str) -> (outcome: Result<i128, ConfigError>)
        ensures
            match integer_read(node@, key@, "i128"@, i128::MIN as int, i128::MAX as int) {
                Ok(value) => outcome == Ok::<i128, ConfigError>(value as i128),
                Err(failure) => outcome matches Err(e) && e@ == failure,
            },
    {
        match read_integer(node, key, "i128", (i128::MAX as u128) + 1, i128::MAX as u128) {
            Ok((negative, size)) => {
                if !negative {
                    Ok(size as i128)
                } else if size == 0 {
                    Ok(0)
                } else {
                    Ok(-1 - ((size - 1) as i128))
                }
            },
            Err(error) => Err(error),
        }
    }
}

impl<T: FromNode> FromNode for Option<T> {
    /// Null gives no value; any other node gives what `T` reads from it.
    fn from_node(node: &ConfigNode, key: &str) -> (outcome: Result<Option<T>, ConfigError>)
        ensures
            node@ is Null ==> outcome matches Ok(None),
            !(node@ is Null) ==> match outcome {
                Ok(Some(value)) => call_ensures(T::from_node, (node, key), Ok(value)),
                Ok(None) => false,
                Err(error) => call_ensures(T::from_node, (node, key), Err(error)),
            },
    {
        match node {
            ConfigNode::Null => Ok(None),
            other => match T::from_node(other, key) {
                Ok(value) => Ok(Some(value)),
                Err(error) => Err(error),
            },
        }
    }
}

/// The key under which the item at `index` of the array under `key` is
/// reported.
pub fn indexed_key(key: &str, index: usize) -> (text: String)
    ensures
        text@ == item_key(key@, index as nat),
{
    let mut text = key.to_string();
    text.append("[");
    let digits = format_unsigned(index as u128);
    text.append(digits.as_str());
    text.append("]");
    text
}

/// What `T` made of the item at `index` of the array `items` read under `key`.
pub open spec fn item_outcome<T: FromNode>(
    items: Seq<ConfigNode>,
    key: Seq<char>,
    index: int,
    outcome: Result<T, ConfigError>,
) -> bool {
    exists|name: &str|
        name@ == item_key(key, index as nat) && #[trigger] call_ensures(
            T::from_node,
            (&items[index], name),
            outcome,
        )
}

/// `T` made a value of the item at `index` of the array `items` read under `key`.
pub open spec fn item_accepted<T: FromNode>(items: Seq<ConfigNode>, key: Seq<char>, index: int) -> bool {
    exists|value: T| #[trigger] item_outcome::<T>(items, key, index, Ok(value))
}

impl<T: FromNode> FromNode for Vec<T> {
    /// Null gives an empty list. An array gives what `T` reads from its
    /// items, each under the key with its index, up to the first item
    /// that `T` turns down. Any other node is a mismatch.
    #[verifier::loop_isolation(false)]
    fn from_node(node: &ConfigNode, key: &str) -> (outcome: Result<Vec<T>, ConfigError>)
        ensures
            match *node {
                ConfigNode::Null => outcome matches Ok(list) && list@.len() == 0,
                ConfigNode::Array(items) => match outcome {
                    Ok(list) => list@.len() == items@.len() && forall|i: int|
                        0 <= i < items@.len() ==> item_outcome::<T>(items@, key@, i, Ok(#[trigger] list@[i])),
                    Err(error) => exists|i: int|
                        0 <= i < items@.len() && #[trigger] item_outcome::<T>(items@, key@, i, Err(error))
                            && forall|j: int| 0 <= j < i ==> #[trigger] item_accepted::<T>(items@, key@, j),
                },
                other => outcome matches Err(e) && e@ == (Failure::TypeMismatch {
                    field: key@,
                    expected: "array"@,
                    found: kind_name(other@),
                }),
            },
    {
        match node {
            ConfigNode::Array(items) => {
                let mut list: Vec<T> = Vec::new();
                let mut i: usize = 0;
                while i < items.len()
                    invariant
                        i <= items@.len(),
                        list@.len() == i,
                        forall|j: int|
                            0 <= j < i ==> item_outcome::<T>(items@, key@, j, Ok(#[trigger] list@[j])),
                    decreases items@.len() - i,
                {
                    let nested_key = indexed_key(key, i);
                    let name = nested_key.as_str();
                    let made = T::from_node(&items[i], name);
                    assert(call_ensures(T::from_node, (&items@[i as int], name), made));
                    match made {
                        Ok(value) => {
                            assert(item_outcome::<T>(items@, key@, i as int, Ok(value)));
                            list.push(value);
                        },
                        Err(error) => {
                            assert(item_outcome::<T>(items@, key@, i as int, Err(error)));
                            assert forall|j: int| 0 <= j < i implies #[trigger] item_accepted::<T>(
                                items@,
                                key@,
                                j,
                            ) by {
                                assert(item_outcome::<T>(items@, key@, j, Ok(list@[j])));
                            }
                            return Err(error);
                        },
                    }
                    i = i + 1;
                }
                Ok(list)
            },
            ConfigNode::Null => Ok(Vec::new()),
            other => Err(ConfigError::mismatch(key, "array", other.kind())),
        }
    }
}

} // verus!
