use forgeconf::validators::{
    check_all, len_range, matches_regex, max_len, min_len, non_empty, one_of, range, HasLen,
};
use forgeconf::ConfigError;
use regex::Regex;
use std::collections::{BTreeMap, BTreeSet, HashMap, HashSet, VecDeque};

#[test]
fn non_empty_is_rejected() {
    let validator = non_empty::<String>();
    let err = validator(&String::new(), "name").unwrap_err();
    assert!(matches!(
        err,
        ConfigError::TypeMismatch { field, expected, .. }
            if field == "name" && expected == "non-empty value"
    ));
}

#[test]
fn range_accepts_value_in_bounds() {
    let validator = range(10_u32, 20);
    validator(&15, "port").unwrap();
}

#[test]
fn range_rejects_out_of_bounds() {
    let validator = range(1_u8, 3_u8);
    let err = validator(&0, "retries").unwrap_err();
    assert!(matches!(
        err,
        ConfigError::TypeMismatch { field, expected, found }
            if field == "retries" && expected == "between 1 and 3" && found == "0"
    ));
}

#[test]
fn min_len_flags_short_values() {
    let validator = min_len::<String>(3);
    let err = validator(&"ab".to_string(), "token").unwrap_err();
    assert!(matches!(
        err,
        ConfigError::TypeMismatch { field, expected, found }
            if field == "token" && expected == "length >= 3" && found == "length 2"
    ));
}

#[test]
fn max_len_flags_long_values() {
    let validator = max_len::<Vec<u8>>(2);
    let err = validator(&vec![1, 2, 3], "bytes").unwrap_err();
    assert!(matches!(
        err,
        ConfigError::TypeMismatch { field, expected, found }
            if field == "bytes" && expected == "length <= 2" && found == "length 3"
    ));
}

#[test]
fn len_range_accepts_bounds() {
    let validator = len_range::<String>(2, 4);
    validator(&"abcd".to_string(), "scope").unwrap();
}

#[test]
fn one_of_accepts_member() {
    let validator = one_of(vec!["debug".to_string(), "info".to_string()]);
    validator(&"info".to_string(), "level").unwrap();
}

#[test]
fn one_of_rejects_non_member() {
    let validator = one_of(vec!["debug".to_string(), "info".to_string()]);
    let err = validator(&"warn".to_string(), "level").unwrap_err();
    assert!(matches!(
        err,
        ConfigError::TypeMismatch { field, expected, found }
            if field == "level" && expected.contains("debug") && found == "warn"
    ));
}

#[test]
fn matches_regex_enforces_pattern() {
    let validator = matches_regex::<String>(Regex::new(r"^[a-z0-9_]+$").unwrap());
    validator(&"valid_123".to_string(), "tag").unwrap();
    let err = validator(&"Invalid!".to_string(), "tag").unwrap_err();
    assert!(matches!(
        err,
        ConfigError::TypeMismatch { field, expected, .. }
            if field == "tag" && expected.starts_with("match /")
    ));
}

#[test]
fn matches_regex_names_the_pattern_and_the_value() {
    let validator = matches_regex::<String>(Regex::new("^a+$").unwrap());
    let err = validator(&"ab".to_string(), "tag").unwrap_err();
    assert_eq!(err.to_string(), "type mismatch for 'tag': expected match /^a+$/, found ab");
}

#[test]
fn non_empty_accepts_what_has_a_length() {
    non_empty::<String>()(&"x".to_string(), "name").unwrap();
    non_empty::<Vec<u8>>()(&vec![0], "list").unwrap();
    let err = non_empty::<Vec<u8>>()(&Vec::new(), "list").unwrap_err();
    assert_eq!(
        err.to_string(),
        "type mismatch for 'list': expected non-empty value, found empty value"
    );
}

#[test]
fn length_checks_hold_at_their_bounds() {
    min_len::<String>(3)(&"abc".to_string(), "k").unwrap();
    max_len::<String>(3)(&"abc".to_string(), "k").unwrap();
    len_range::<String>(3, 3)(&"abc".to_string(), "k").unwrap();
    assert!(min_len::<String>(4)(&"abc".to_string(), "k").is_err());
    assert!(max_len::<String>(2)(&"abc".to_string(), "k").is_err());
    let err = len_range::<String>(1, 2)(&"abc".to_string(), "k").unwrap_err();
    assert_eq!(
        err.to_string(),
        "type mismatch for 'k': expected length between 1 and 2, found length 3"
    );
    let err = len_range::<String>(4, 9)(&"abc".to_string(), "k").unwrap_err();
    assert_eq!(
        err.to_string(),
        "type mismatch for 'k': expected length between 4 and 9, found length 3"
    );
}

#[test]
fn length_of_a_string_counts_bytes() {
    min_len::<String>(2)(&"é".to_string(), "k").unwrap();
    assert!(max_len::<String>(1)(&"é".to_string(), "k").is_err());
}

#[test]
fn range_holds_at_its_bounds_and_for_negative_numbers() {
    let validator = range(-5_i32, 5);
    validator(&-5, "n").unwrap();
    validator(&5, "n").unwrap();
    let err = validator(&-6, "n").unwrap_err();
    assert_eq!(err.to_string(), "type mismatch for 'n': expected between -5 and 5, found -6");
    let err = validator(&6, "n").unwrap_err();
    assert_eq!(err.to_string(), "type mismatch for 'n': expected between -5 and 5, found 6");
    range(i128::MIN, i128::MAX)(&0, "n").unwrap();
    range(u128::MAX, u128::MAX)(&u128::MAX, "n").unwrap();
    let err = range(i128::MIN, i128::MIN)(&0, "n").unwrap_err();
    assert_eq!(
        err.to_string(),
        "type mismatch for 'n': expected between -170141183460469231731687303715884105728 and \
         -170141183460469231731687303715884105728, found 0"
    );
}

#[test]
fn one_of_lists_what_it_allows() {
    let validator = one_of(vec![1_u8, 2, 3]);
    validator(&2, "n").unwrap();
    let err = validator(&4, "n").unwrap_err();
    assert_eq!(err.to_string(), "type mismatch for 'n': expected one of [1, 2, 3], found 4");
    let err = one_of(vec!["a".to_string()])(&"b".to_string(), "s").unwrap_err();
    assert_eq!(err.to_string(), "type mismatch for 's': expected one of [a], found b");
}

#[test]
fn has_len_covers_the_collections_of_std() {
    assert_eq!(HasLen::len(&"abc".to_string()), 3);
    assert_eq!(HasLen::len(&vec![1, 2]), 2);
    assert_eq!(HasLen::len(&VecDeque::from(vec![1, 2, 3])), 3);
    assert_eq!(HasLen::len(&BTreeMap::from([(1, 2)])), 1);
    assert_eq!(HasLen::len(&BTreeSet::from([1, 2])), 2);
    assert_eq!(HasLen::len(&HashMap::from([(1, 2)])), 1);
    assert_eq!(HasLen::len(&HashSet::from([1, 2, 3, 4])), 4);
    assert!(HasLen::is_empty(&String::new()));
    assert!(!HasLen::is_empty(&vec![1]));
}

#[test]
fn checks_run_in_order_and_stop_at_the_first_objection() {
    let checks: Vec<Box<dyn Fn(&String, &str) -> Result<(), ConfigError>>> = vec![
        Box::new(non_empty::<String>()),
        Box::new(max_len::<String>(2)),
        Box::new(min_len::<String>(9)),
    ];
    let err = check_all(&"abc".to_string(), "k", &checks).unwrap_err();
    assert_eq!(err.to_string(), "type mismatch for 'k': expected length <= 2, found length 3");
    check_all(&"abc".to_string(), "k", &checks[..1].iter().collect::<Vec<_>>()).unwrap();
    let none: Vec<Box<dyn Fn(&String, &str) -> Result<(), ConfigError>>> = Vec::new();
    check_all(&"abc".to_string(), "k", &none).unwrap();
}

#[test]
fn matches_regex_passes_exactly_what_the_pattern_matches() {
    let pattern = Regex::new("b+").unwrap();
    let validator = matches_regex::<String>(pattern.clone());
    for text in ["", "a", "b", "abba", "xyz", "bbb", "B"] {
        assert_eq!(validator(&text.to_string(), "k").is_ok(), pattern.is_match(text), "{text:?}");
    }
    let err = validator(&"aaa".to_string(), "k").unwrap_err();
    assert_eq!(err.to_string(), "type mismatch for 'k': expected match /b+/, found aaa");
}

#[test]
fn one_of_and_range_take_truth_values_and_characters() {
    let validator = one_of(vec![true]);
    validator(&true, "flag").unwrap();
    let err = validator(&false, "flag").unwrap_err();
    assert_eq!(err.to_string(), "type mismatch for 'flag': expected one of [true], found false");

    let validator = one_of(vec!['a', 'é']);
    validator(&'é', "initial").unwrap();
    let err = validator(&'z', "initial").unwrap_err();
    assert_eq!(err.to_string(), "type mismatch for 'initial': expected one of [a, é], found z");

    let validator = range('a', 'f');
    validator(&'a', "grade").unwrap();
    validator(&'f', "grade").unwrap();
    let err = validator(&'g', "grade").unwrap_err();
    assert_eq!(err.to_string(), "type mismatch for 'grade': expected between a and f, found g");
    assert!(validator(&'A', "grade").is_err());
    assert!(range('\u{e000}', '\u{10ffff}')(&'\u{d7ff}', "c").is_err());

    let validator = range(false, true);
    validator(&false, "flag").unwrap();
    validator(&true, "flag").unwrap();
    let err = range(true, true)(&false, "flag").unwrap_err();
    assert_eq!(err.to_string(), "type mismatch for 'flag': expected between true and true, found false");
}
