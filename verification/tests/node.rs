use forgeconf::node::{ConfigNode, Table};
use forgeconf::{ConfigError, FromNode};

#[test]
fn vec_from_null_becomes_empty() {
    let node = ConfigNode::Null;
    let parsed = Vec::<u8>::from_node(&node, "numbers").unwrap();
    assert!(parsed.is_empty());
}

#[test]
fn option_from_scalar_resolves() {
    let node = ConfigNode::Scalar("42".into());
    let parsed = Option::<u32>::from_node(&node, "answer").unwrap();
    assert_eq!(parsed, Some(42));
}

#[test]
fn string_from_null_is_missing() {
    let node = ConfigNode::Null;
    let err = String::from_node(&node, "name").unwrap_err();
    assert!(matches!(err, ConfigError::MissingValue(key) if key == "name"));
}

#[test]
fn to_owned_table_rejects_non_table() {
    let node = ConfigNode::Scalar("value".into());
    let err = node.to_owned_table().unwrap_err();
    assert!(matches!(
        err,
        ConfigError::TypeMismatch {
            field,
            expected,
            found
        } if field == "root" && expected == "table" && found == "scalar"
    ));
}

#[test]
fn bool_from_scalar_parses() {
    let node = ConfigNode::Scalar("true".into());
    let parsed = bool::from_node(&node, "flag").unwrap();
    assert!(parsed);
}

#[test]
fn numeric_parse_error_is_reported() {
    let node = ConfigNode::Scalar("not-a-number".into());
    let err = u16::from_node(&node, "size").unwrap_err();
    assert!(matches!(
        err,
        ConfigError::TypeMismatch {
            field,
            expected,
            ..
        } if field == "size" && expected.contains("u16")
    ));
}

#[test]
fn char_from_long_string_is_rejected() {
    let node = ConfigNode::Scalar("abc".into());
    let err = char::from_node(&node, "initial").unwrap_err();
    assert!(matches!(
        err,
        ConfigError::TypeMismatch { field, expected, .. }
            if field == "initial" && expected == "character"
    ));
}

#[test]
fn vec_from_non_array_errors() {
    let node = ConfigNode::Scalar("nope".into());
    let err = Vec::<u8>::from_node(&node, "values").unwrap_err();
    assert!(matches!(
        err,
        ConfigError::TypeMismatch { field, expected, .. }
            if field == "values" && expected == "array"
    ));
}

fn scalar(text: &str) -> ConfigNode {
    ConfigNode::Scalar(text.to_string())
}

#[test]
fn kind_names_the_four_variants() {
    assert_eq!(ConfigNode::empty_table().kind(), "table");
    assert_eq!(ConfigNode::Array(Vec::new()).kind(), "array");
    assert_eq!(scalar("x").kind(), "scalar");
    assert_eq!(ConfigNode::Null.kind(), "null");
}

#[test]
fn display_text_is_bracketed_and_in_key_order() {
    let mut inner = Table::new();
    inner.insert("z".into(), ConfigNode::Null);
    inner.insert("a".into(), ConfigNode::Array(vec![scalar("1"), scalar("2")]));
    let mut table = Table::new();
    table.insert("name".into(), scalar("svc"));
    table.insert("inner".into(), ConfigNode::Table(inner));
    table.insert("Zed".into(), ConfigNode::Array(Vec::new()));
    let node = ConfigNode::Table(table);
    assert_eq!(node.to_string(), "{Zed: [], inner: {a: [1, 2], z: null}, name: svc}");
    assert_eq!(ConfigNode::empty_table().to_string(), "{}");
}

#[test]
fn table_insert_replaces_and_hands_back_the_old_node() {
    let mut table = Table::new();
    assert_eq!(table.insert("k".into(), scalar("1")), None);
    assert_eq!(table.insert("k".into(), scalar("2")), Some(scalar("1")));
    assert_eq!(table.len(), 1);
    assert_eq!(table.get("k"), Some(&scalar("2")));
    assert_eq!(table.remove("k"), Some(scalar("2")));
    assert_eq!(table.remove("k"), None);
    assert!(table.is_empty());
}

#[test]
fn table_keys_come_in_byte_order() {
    let mut table = Table::new();
    for key in ["b", "a", "é", "B", "ab", ""] {
        table.insert(key.to_string(), ConfigNode::Null);
    }
    assert_eq!(table.keys(), vec!["", "B", "a", "ab", "b", "é"]);
    assert_eq!(table.pop_last(), Some(("é".to_string(), ConfigNode::Null)));
    assert_eq!(table.len(), 5);
}

#[test]
fn table_finds_keys_whatever_the_case() {
    let mut table = Table::new();
    table.insert("NAME".into(), scalar("upper"));
    table.insert("name".into(), scalar("lower"));
    assert_eq!(table.find_key("name", false), Some("name".to_string()));
    assert_eq!(table.find_key("Name", false), None);
    assert_eq!(table.find_key("Name", true), Some("NAME".to_string()));
    assert_eq!(table.find_key("other", true), None);
}

#[test]
fn as_table_is_none_for_other_kinds() {
    assert!(scalar("x").as_table().is_none());
    assert!(ConfigNode::Null.as_table().is_none());
    assert!(ConfigNode::empty_table().as_table().unwrap().is_empty());
}

#[test]
fn to_owned_table_names_the_kind_that_it_found() {
    let node = ConfigNode::Array(vec![scalar("a"), ConfigNode::Null]);
    let err = node.to_owned_table().unwrap_err();
    assert_eq!(err.to_string(), "type mismatch for 'root': expected table, found array");
    let err = ConfigNode::Null.to_owned_table().unwrap_err();
    assert_eq!(err.to_string(), "type mismatch for 'root': expected table, found null");
}

#[test]
fn clone_gives_an_equal_node() {
    let mut table = Table::new();
    table.insert("list".into(), ConfigNode::Array(vec![scalar("1"), ConfigNode::Null]));
    let node = ConfigNode::Table(table);
    assert_eq!(node.clone(), node);
}

#[test]
fn integers_parse_within_their_bounds() {
    assert_eq!(u8::from_node(&scalar("255"), "k").unwrap(), 255);
    assert!(u8::from_node(&scalar("256"), "k").is_err());
    assert!(u8::from_node(&scalar("-1"), "k").is_err());
    assert!(u8::from_node(&scalar("-0"), "k").is_err());
    assert_eq!(u8::from_node(&scalar("+7"), "k").unwrap(), 7);
    assert_eq!(u8::from_node(&scalar("007"), "k").unwrap(), 7);
    assert_eq!(i8::from_node(&scalar("-128"), "k").unwrap(), -128);
    assert!(i8::from_node(&scalar("-129"), "k").is_err());
    assert!(i8::from_node(&scalar("128"), "k").is_err());
    assert_eq!(i8::from_node(&scalar("-0"), "k").unwrap(), 0);
    assert_eq!(i16::from_node(&scalar("-32768"), "k").unwrap(), i16::MIN);
    assert_eq!(i32::from_node(&scalar("2147483647"), "k").unwrap(), i32::MAX);
    assert_eq!(i64::from_node(&scalar("-9223372036854775808"), "k").unwrap(), i64::MIN);
    assert_eq!(
        i128::from_node(&scalar("-170141183460469231731687303715884105728"), "k").unwrap(),
        i128::MIN
    );
    assert_eq!(
        u128::from_node(&scalar("340282366920938463463374607431768211455"), "k").unwrap(),
        u128::MAX
    );
    assert!(u128::from_node(&scalar("340282366920938463463374607431768211456"), "k").is_err());
    assert_eq!(u64::from_node(&scalar("18446744073709551615"), "k").unwrap(), u64::MAX);
    assert_eq!(usize::from_node(&scalar("12"), "k").unwrap(), 12);
    assert_eq!(isize::from_node(&scalar("-12"), "k").unwrap(), -12);
    assert_eq!(u32::from_node(&scalar("4294967295"), "k").unwrap(), u32::MAX);
    assert_eq!(u16::from_node(&scalar("65535"), "k").unwrap(), u16::MAX);
    for text in ["", "+", "-", " 1", "1 ", "1_0", "0x10", "1.0", "٣"] {
        assert!(i32::from_node(&scalar(text), "k").is_err(), "{text:?}");
    }
}

#[test]
fn scalars_of_the_wrong_kind_name_what_was_found() {
    let err = u16::from_node(&ConfigNode::Array(Vec::new()), "size").unwrap_err();
    assert_eq!(err.to_string(), "type mismatch for 'size': expected u16, found array");
    let err = bool::from_node(&ConfigNode::empty_table(), "flag").unwrap_err();
    assert_eq!(err.to_string(), "type mismatch for 'flag': expected bool, found table");
    let err = bool::from_node(&scalar("yes"), "flag").unwrap_err();
    assert_eq!(err.to_string(), "type mismatch for 'flag': expected bool, found yes");
    let err = i64::from_node(&ConfigNode::Null, "n").unwrap_err();
    assert_eq!(err.to_string(), "missing value for 'n'");
    let err = String::from_node(&ConfigNode::Array(Vec::new()), "s").unwrap_err();
    assert_eq!(err.to_string(), "type mismatch for 's': expected string, found array");
}

#[test]
fn char_takes_exactly_one_character() {
    assert_eq!(char::from_node(&scalar("é"), "c").unwrap(), 'é');
    assert!(char::from_node(&scalar(""), "c").is_err());
    let err = char::from_node(&ConfigNode::Null, "c").unwrap_err();
    assert!(matches!(err, ConfigError::MissingValue(key) if key == "c"));
}

#[test]
fn vec_reports_the_item_by_its_index() {
    let node = ConfigNode::Array(vec![scalar("1"), scalar("2"), scalar("x"), scalar("y")]);
    let err = Vec::<u8>::from_node(&node, "ports").unwrap_err();
    assert_eq!(err.to_string(), "type mismatch for 'ports[2]': expected u8, found x");
    let node = ConfigNode::Array(vec![scalar("1"), scalar("2")]);
    assert_eq!(Vec::<u8>::from_node(&node, "ports").unwrap(), vec![1, 2]);
}

#[test]
fn option_from_null_is_none() {
    assert_eq!(Option::<String>::from_node(&ConfigNode::Null, "k").unwrap(), None);
    assert!(Option::<u8>::from_node(&scalar("x"), "k").is_err());
}

#[test]
fn node_from_node_is_a_copy() {
    let node = ConfigNode::Array(vec![scalar("1")]);
    assert_eq!(ConfigNode::from_node(&node, "k").unwrap(), node);
}

#[test]
fn table_with_many_keys_finds_each_of_them() {
    let mut table = Table::new();
    let mut expected = Vec::new();
    let mut seed: u32 = 17;
    for _ in 0..500 {
        seed = seed.wrapping_mul(1_103_515_245).wrapping_add(12_345);
        let key = format!("k{}", seed % 300);
        table.insert(key.clone(), scalar(&seed.to_string()));
        expected.retain(|(k, _): &(String, String)| *k != key);
        expected.push((key, seed.to_string()));
    }
    expected.sort();
    assert_eq!(table.len(), expected.len());
    assert_eq!(table.keys(), expected.iter().map(|(k, _)| k.clone()).collect::<Vec<_>>());
    for (key, value) in &expected {
        assert_eq!(table.get(key), Some(&scalar(value)));
    }
    assert_eq!(table.get("k300"), None);
    assert_eq!(table.get(""), None);
    assert_eq!(table.get("zzz"), None);
    for (key, value) in expected.iter().rev() {
        assert_eq!(table.remove(key), Some(scalar(value)));
    }
    assert!(table.is_empty());
}
