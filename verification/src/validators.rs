//! Checks that a field's value has to pass once it is read.

use std::collections::{BTreeMap, BTreeSet, HashMap, HashSet, VecDeque};
use vstd::prelude::*;
use vstd::string::StringExecFns;
use crate::error::{ConfigError, Failure};
use crate::number::{decimal, format_signed, format_unsigned, signed_decimal};
use crate::text::{bool_text, char_text, format_bool};

verus! {

/// The type `regex::Regex`, of which nothing is said.
#[verifier::external_type_specification]
#[verifier::external_body]
pub struct ExRegex(regex::Regex);

/// Trait for values whose length can be queried.
pub trait HasLen {
    /// The length of the value, as a number.
    spec fn size(&self) -> nat;

    /// The length of the value.
    fn len(&self) -> (n: usize)
        ensures
            n == self.size(),
    ;

    /// Whether the length of the value is 0.
    fn is_empty(&self) -> (empty: bool)
        ensures
            empty == (self.size() == 0),
    {
        self.len() == 0
    }
}

impl HasLen for String {
    /// The number of bytes of the text in UTF-8.
    open spec fn size(&self) -> nat {
        (vstd::utf8::encode_utf8(self@).len() as usize) as nat
    }

    fn len(&self) -> (n: usize) {
        self.as_str().len()
    }
}

impl<T> HasLen for Vec<T> {
    open spec fn size(&self) -> nat {
        self@.len()
    }

    fn len(&self) -> (n: usize) {
        Vec::len(self)
    }
}

impl<T> HasLen for VecDeque<T> {
    open spec fn size(&self) -> nat {
        self.len() as nat
    }

    fn len(&self) -> (n: usize) {
        VecDeque::len(self)
    }
}

impl<K, V> HasLen for BTreeMap<K, V> {
    open spec fn size(&self) -> nat {
        self.len() as nat
    }

    fn len(&self) -> (n: usize) {
        BTreeMap::len(self)
    }
}

impl<K> HasLen for BTreeSet<K> {
    open spec fn size(&self) -> nat {
        self.len() as nat
    }

    fn len(&self) -> (n: usize) {
        BTreeSet::len(self)
    }
}

impl<K, V> HasLen for HashMap<K, V> {
    open spec fn size(&self) -> nat {
        self.len() as nat
    }

    fn len(&self) -> (n: usize) {
        HashMap::len(self)
    }
}

impl<K> HasLen for HashSet<K> {
    open spec fn size(&self) -> nat {
        self.len() as nat
    }

    fn len(&self) -> (n: usize) {
        HashSet::len(self)
    }
}

/// A value that has a display text and can be told from another.
pub trait Shown {
    /// The display text of the value.
    spec fn shown(&self) -> Seq<char>;

    /// Whether the two values are equal.
    spec fn alike(&self, other: &Self) -> bool;

    fn show(&self) -> (text: String)
        ensures
            text@ == self.shown(),
    ;

    fn same_as(&self, other: &Self) -> (same: bool)
        ensures
            same == self.alike(other),
    ;
}

/// A value with a place in an order.
pub trait Ranked: Shown + Copy {
    /// The place of the value.
    spec fn rank(&self) -> int;

    fn precedes(&self, other: &Self) -> (before: bool)
        ensures
            before == (self.rank() < other.rank()),
    ;
}

/// A value that is a text.
pub trait Textual: Shown {
    fn as_text(&self) -> (text: &str)
        ensures
            text@ == self.shown(),
    ;
}

impl Shown for String {
    open spec fn shown(&self) -> Seq<char> {
        self@
    }

    open spec fn alike(&self, other: &String) -> bool {
        self@ == other@
    }

    fn show(&self) -> (text: String) {
        self.clone()
    }

    fn same_as(&self, other: &String) -> (same: bool) {
        crate::text::same_text(self.as_str(), other.as_str())
    }
}

impl Textual for String {
    fn as_text(&self) -> (text: &str) {
        self.as_str()
    }
}

impl Shown for bool {
    open spec fn shown(&self) -> Seq<char> {
        bool_text(*self)
    }

    open spec fn alike(&self, other: &bool) -> bool {
        *self == *other
    }

    fn show(&self) -> (text: String) {
        format_bool(*self)
    }

    fn same_as(&self, other: &bool) -> (same: bool) {
        *self == *other
    }
}

impl Ranked for bool {
    /// `false` comes before `true`.
    open spec fn rank(&self) -> int {
        if *self {
            1
        } else {
            0
        }
    }

    fn precedes(&self, other: &bool) -> (before: bool) {
        !*self && *other
    }
}

impl Shown for char {
    open spec fn shown(&self) -> Seq<char> {
        seq![*self]
    }

    open spec fn alike(&self, other: &char) -> bool {
        *self == *other
    }

    fn show(&self) -> (text: String) {
        char_text(*self)
    }

    fn same_as(&self, other: &char) -> (same: bool) {
        *self == *other
    }
}

impl Ranked for char {
    /// Characters stand in the order of their code points.
    open spec fn rank(&self) -> int {
        *self as u32 as int
    }

    fn precedes(&self, other: &char) -> (before: bool) {
        (*self as u32) < (*other as u32)
    }
}

impl Shown for i8 {
    open spec fn shown(&self) -> Seq<char> {
        signed_decimal(*self as int)
    }

    open spec fn alike(&self, other: &i8) -> bool {
        *self == *other
    }

    fn show(&self) -> (text: String) {
        format_signed(*self as i128)
    }

    fn same_as(&self, other: &i8) -> (same: bool) {
        *self == *other
    }
}

impl Ranked for i8 {
    open spec fn rank(&self) -> int {
        *self as int
    }

    fn precedes(&self, other: &i8) -> (before: bool) {
        *self < *other
    }
}

impl Shown for i16 {
    open spec fn shown(&self) -> Seq<char> {
        signed_decimal(*self as int)
    }

    open spec fn alike(&self, other: &i16) -> bool {
        *self == *other
    }

    fn show(&self) -> (text: String) {
        format_signed(*self as i128)
    }

    fn same_as(&self, other: &i16) -> (same: bool) {
        *self == *other
    }
}

impl Ranked for i16 {
    open spec fn rank(&self) -> int {
        *self as int
    }

    fn precedes(&self, other: &i16) -> (before: bool) {
        *self < *other
    }
}

impl Shown for i32 {
    open spec fn shown(&self) -> Seq<char> {
        signed_decimal(*self as int)
    }

    open spec fn alike(&self, other: &i32) -> bool {
        *self == *other
    }

    fn show(&self) -> (text: String) {
        format_signed(*self as i128)
    }

    fn same_as(&self, other: &i32) -> (same: bool) {
        *self == *other
    }
}

impl Ranked for i32 {
    open spec fn rank(&self) -> int {
        *self as int
    }

    fn precedes(&self, other: &i32) -> (before: bool) {
        *self < *other
    }
}

impl Shown for i64 {
    open spec fn shown(&self) -> Seq<char> {
        signed_decimal(*self as int)
    }

    open spec fn alike(&self, other: &i64) -> bool {
        *self == *other
    }

    fn show(&self) -> (text: String) {
        format_signed(*self as i128)
    }

    fn same_as(&self, other: &i64) -> (same: bool) {
        *self == *other
    }
}

impl Ranked for i64 {
    open spec fn rank(&self) -> int {
        *self as int
    }

    fn precedes(&self, other: &i64) -> (before: bool) {
        *self < *other
    }
}

impl Shown for i128 {
    open spec fn shown(&self) -> Seq<char> {
        signed_decimal(*self as int)
    }

    open spec fn alike(&self, other: &i128) -> bool {
        *self == *other
    }

    fn show(&self) -> (text: String) {
        format_signed(*self as i128)
    }

    fn same_as(&self, other: &i128) -> (same: bool) {
        *self == *other
    }
}

impl Ranked for i128 {
    open spec fn rank(&self) -> int {
        *self as int
    }

    fn precedes(&self, other: &i128) -> (before: bool) {
        *self < *other
    }
}

impl Shown for isize {
    open spec fn shown(&self) -> Seq<char> {
        signed_decimal(*self as int)
    }

    open spec fn alike(&self, other: &isize) -> bool {
        *self == *other
    }

    fn show(&self) -> (text: String) {
        format_signed(*self as i128)
    }

    fn same_as(&self, other: &isize) -> (same: bool) {
        *self == *other
    }
}

impl Ranked for isize {
    open spec fn rank(&self) -> int {
        *self as int
    }

    fn precedes(&self, other: &isize) -> (before: bool) {
        *self < *other
    }
}

impl Shown for u8 {
    open spec fn shown(&self) -> Seq<char> {
        signed_decimal(*self as int)
    }

    open spec fn alike(&self, other: &u8) -> bool {
        *self == *other
    }

    fn show(&self) -> (text: String) {
        format_unsigned(*self as u128)
    }

    fn same_as(&self, other: &u8) -> (same: bool) {
        *self == *other
    }
}

impl Ranked for u8 {
    open spec fn rank(&self) -> int {
        *self as int
    }

    fn precedes(&self, other: &u8) -> (before: bool) {
        *self < *other
    }
}

impl Shown for u16 {
    open spec fn shown(&self) -> Seq<char> {
        signed_decimal(*self as int)
    }

    open spec fn alike(&self, other: &u16) -> bool {
        *self == *other
    }

    fn show(&self) -> (text: String) {
        format_unsigned(*self as u128)
    }

    fn same_as(&self, other: &u16) -> (same: bool) {
        *self == *other
    }
}

impl Ranked for u16 {
    open spec fn rank(&self) -> int {
        *self as int
    }

    fn precedes(&self, other: &u16) -> (before: bool) {
        *self < *other
    }
}

impl Shown for u32 {
    open spec fn shown(&self) -> Seq<char> {
        signed_decimal(*self as int)
    }

    open spec fn alike(&self, other: &u32) -> bool {
        *self == *other
    }

    fn show(&self) -> (text: String) {
        format_unsigned(*self as u128)
    }

    fn same_as(&self, other: &u32) -> (same: bool) {
        *self == *other
    }
}

impl Ranked for u32 {
    open spec fn rank(&self) -> int {
        *self as int
    }

    fn precedes(&self, other: &u32) -> (before: bool) {
        *self < *other
    }
}

impl Shown for u64 {
    open spec fn shown(&self) -> Seq<char> {
        signed_decimal(*self as int)
    }

    open spec fn alike(&self, other: &u64) -> bool {
        *self == *other
    }

    fn show(&self) -> (text: String) {
        format_unsigned(*self as u128)
    }

    fn same_as(&self, other: &u64) -> (same: bool) {
        *self == *other
    }
}

impl Ranked for u64 {
    open spec fn rank(&self) -> int {
        *self as int
    }

    fn precedes(&self, other: &u64) -> (before: bool) {
        *self < *other
    }
}

impl Shown for u128 {
    open spec fn shown(&self) -> Seq<char> {
        signed_decimal(*self as int)
    }

    open spec fn alike(&self, other: &u128) -> bool {
        *self == *other
    }

    fn show(&self) -> (text: String) {
        format_unsigned(*self as u128)
    }

    fn same_as(&self, other: &u128) -> (same: bool) {
        *self == *other
    }
}

impl Ranked for u128 {
    open spec fn rank(&self) -> int {
        *self as int
    }

    fn precedes(&self, other: &u128) -> (before: bool) {
        *self < *other
    }
}

impl Shown for usize {
    open spec fn shown(&self) -> Seq<char> {
        signed_decimal(*self as int)
    }

    open spec fn alike(&self, other: &usize) -> bool {
        *self == *other
    }

    fn show(&self) -> (text: String) {
        format_unsigned(*self as u128)
    }

    fn same_as(&self, other: &usize) -> (same: bool) {
        *self == *other
    }
}

impl Ranked for usize {
    open spec fn rank(&self) -> int {
        *self as int
    }

    fn precedes(&self, other: &usize) -> (before: bool) {
        *self < *other
    }
}

/// Whether `outcome` is what a check hands back: nothing to object to
/// where `pass` holds, else a mismatch for the field `key` with what was
/// expected and what was found.
pub open spec fn checked(
    pass: bool,
    key: Seq<char>,
    expected: Seq<char>,
    found: Seq<char>,
    outcome: Result<(), ConfigError>,
) -> bool {
    if pass {
        outcome is Ok
    } else {
        outcome matches Err(e) && e@ == (Failure::TypeMismatch { field: key, expected, found })
    }
}

/// The outcome of a check that passes where `pass` holds.
pub fn verdict(pass: bool, key: &str, expected: &str, found: &str) -> (outcome: Result<(), ConfigError>)
    ensures
        checked(pass, key@, expected@, found@, outcome),
{
    if pass {
        Ok(())
    } else {
        Err(ConfigError::mismatch(key, expected, found))
    }
}

/// A label followed by a number in decimal.
pub fn label_number(label: &str, number: usize) -> (text: String)
    ensures
        text@ == label@ + decimal(number as nat),
{
    let mut text = label.to_string();
    let digits = format_unsigned(number as u128);
    text.append(digits.as_str());
    text
}

/// Ensure that a collection-like value is not empty.
pub fn non_empty<T: HasLen>() -> (check: impl Fn(&T, &str) -> Result<(), ConfigError>)
    ensures
        forall|value: &T, key: &str| call_requires(check, (value, key)),
        forall|value: &T, key: &str, outcome: Result<(), ConfigError>| #[trigger]
            call_ensures(check, (value, key), outcome) ==> checked(
                value.size() != 0,
                key@,
                "non-empty value"@,
                "empty value"@,
                outcome,
            ),
{
    |value: &T, key: &str| -> (outcome: Result<(), ConfigError>)
        ensures
            checked(value.size() != 0, key@, "non-empty value"@, "empty value"@, outcome),
        { verdict(value.len() != 0, key, "non-empty value", "empty value") }
}

/// Ensure the value length is at least `min`.
pub fn min_len<T: HasLen>(min: usize) -> (check: impl Fn(&T, &str) -> Result<(), ConfigError>)
    ensures
        forall|value: &T, key: &str| call_requires(check, (value, key)),
        forall|value: &T, key: &str, outcome: Result<(), ConfigError>| #[trigger]
            call_ensures(check, (value, key), outcome) ==> checked(
                value.size() >= min,
                key@,
                "length >= "@ + decimal(min as nat),
                "length "@ + decimal(value.size()),
                outcome,
            ),
{
    move |value: &T, key: &str| -> (outcome: Result<(), ConfigError>)
        ensures
            checked(
                value.size() >= min,
                key@,
                "length >= "@ + decimal(min as nat),
                "length "@ + decimal(value.size()),
                outcome,
            ),
        {
            let len = value.len();
            let expected = label_number("length >= ", min);
            let found = label_number("length ", len);
            verdict(len >= min, key, expected.as_str(), found.as_str())
        }
}

/// Ensure the value length does not exceed `max`.
pub fn max_len<T: HasLen>(max: usize) -> (check: impl Fn(&T, &str) -> Result<(), ConfigError>)
    ensures
        forall|value: &T, key: &str| call_requires(check, (value, key)),
        forall|value: &T, key: &str, outcome: Result<(), ConfigError>| #[trigger]
            call_ensures(check, (value, key), outcome) ==> checked(
                value.size() <= max,
                key@,
                "length <= "@ + decimal(max as nat),
                "length "@ + decimal(value.size()),
                outcome,
            ),
{
    move |value: &T, key: &str| -> (outcome: Result<(), ConfigError>)
        ensures
            checked(
                value.size() <= max,
                key@,
                "length <= "@ + decimal(max as nat),
                "length "@ + decimal(value.size()),
                outcome,
            ),
        {
            let len = value.len();
            let expected = label_number("length <= ", max);
            let found = label_number("length ", len);
            verdict(len <= max, key, expected.as_str(), found.as_str())
        }
}

/// The text `<label><min> and <max>`.
pub open spec fn between(label: Seq<char>, min: Seq<char>, max: Seq<char>) -> Seq<char> {
    label + min + " and "@ + max
}

/// The text `<label><min> and <max>`.
pub fn between_text(label: &str, min: &str, max: &str) -> (text: String)
    ensures
        text@ == between(label@, min@, max@),
{
    let mut text = label.to_string();
    text.append(min);
    text.append(" and ");
    text.append(max);
    text
}

/// Ensure the value length falls within the provided range.
pub fn len_range<T: HasLen>(min: usize, max: usize) -> (check: impl Fn(&T, &str) -> Result<(), ConfigError>)
    requires
        min <= max,
    ensures
        forall|value: &T, key: &str| call_requires(check, (value, key)),
        forall|value: &T, key: &str, outcome: Result<(), ConfigError>| #[trigger]
            call_ensures(check, (value, key), outcome) ==> checked(
                min <= value.size() <= max,
                key@,
                between("length between "@, decimal(min as nat), decimal(max as nat)),
                "length "@ + decimal(value.size()),
                outcome,
            ),
{
    move |value: &T, key: &str| -> (outcome: Result<(), ConfigError>)
        ensures
            checked(
                min <= value.size() <= max,
                key@,
                between("length between "@, decimal(min as nat), decimal(max as nat)),
                "length "@ + decimal(value.size()),
                outcome,
            ),
        {
            let len = value.len();
            let low = format_unsigned(min as u128);
            let high = format_unsigned(max as u128);
            let expected = between_text("length between ", low.as_str(), high.as_str());
            let found = label_number("length ", len);
            verdict(min <= len && len <= max, key, expected.as_str(), found.as_str())
        }
}

/// Ensure that a comparable scalar falls within the provided range.
pub fn range<T: Ranked>(min: T, max: T) -> (check: impl Fn(&T, &str) -> Result<(), ConfigError>)
    requires
        min.rank() <= max.rank(),
    ensures
        forall|value: &T, key: &str| call_requires(check, (value, key)),
        forall|value: &T, key: &str, outcome: Result<(), ConfigError>| #[trigger]
            call_ensures(check, (value, key), outcome) ==> checked(
                min.rank() <= value.rank() <= max.rank(),
                key@,
                between("between "@, min.shown(), max.shown()),
                value.shown(),
                outcome,
            ),
{
    move |value: &T, key: &str| -> (outcome: Result<(), ConfigError>)
        ensures
            checked(
                min.rank() <= value.rank() <= max.rank(),
                key@,
                between("between "@, min.shown(), max.shown()),
                value.shown(),
                outcome,
            ),
        {
            let low = min.show();
            let high = max.show();
            let expected = between_text("between ", low.as_str(), high.as_str());
            let found = value.show();
            let inside = !value.precedes(&min) && !max.precedes(value);
            verdict(inside, key, expected.as_str(), found.as_str())
        }
}

/// The display texts of the first `n` of `list`, separated by a comma and
/// a space.
pub open spec fn joined<T: Shown>(list: Seq<T>, n: nat) -> Seq<char>
    decreases n,
{
    if n == 0 || n > list.len() {
        Seq::empty()
    } else if n == 1 {
        list[0].shown()
    } else {
        joined(list, (n - 1) as nat) + ", "@ + list[n - 1].shown()
    }
}

/// Whether `value` is equal to one of `list`.
pub open spec fn listed<T: Shown>(list: Seq<T>, value: T) -> bool {
    exists|i: int| 0 <= i < list.len() && (#[trigger] list[i]).alike(&value)
}

/// What a check for membership in `list` says it expects.
pub open spec fn one_of_label<T: Shown>(list: Seq<T>) -> Seq<char> {
    "one of ["@ + joined(list, list.len()) + "]"@
}

/// Whether `value` is equal to one of `list`.
pub fn is_listed<T: Shown>(list: &Vec<T>, value: &T) -> (found: bool)
    ensures
        found == listed(list@, *value),
{
    let mut i: usize = 0;
    while i < list.len()
        invariant
            i <= list@.len(),
            forall|j: int| 0 <= j < i ==> !(#[trigger] list@[j]).alike(value),
        decreases list@.len() - i,
    {
        if list[i].same_as(value) {
            return true;
        }
        i = i + 1;
    }
    false
}

/// What a check for membership in `list` says it expects.
pub fn label_one_of<T: Shown>(list: &Vec<T>) -> (text: String)
    ensures
        text@ == one_of_label(list@),
{
    let mut text = String::new();
    text.append("one of [");
    let mut i: usize = 0;
    while i < list.len()
        invariant
            i <= list@.len(),
            text@ == "one of ["@ + joined(list@, i as nat),
        decreases list@.len() - i,
    {
        if i > 0 {
            text.append(", ");
        }
        let item = list[i].show();
        text.append(item.as_str());
        i = i + 1;
    }
    text.append("]");
    text
}

/// Ensure the value is present in a pre-defined set.
pub fn one_of<T: Shown>(allowed: Vec<T>) -> (check: impl Fn(&T, &str) -> Result<(), ConfigError>)
    requires
        allowed@.len() > 0,
    ensures
        forall|value: &T, key: &str| call_requires(check, (value, key)),
        forall|value: &T, key: &str, outcome: Result<(), ConfigError>| #[trigger]
            call_ensures(check, (value, key), outcome) ==> checked(
                listed(allowed@, *value),
                key@,
                one_of_label(allowed@),
                value.shown(),
                outcome,
            ),
{
    let expected = label_one_of(&allowed);
    move |value: &T, key: &str| -> (outcome: Result<(), ConfigError>)
        ensures
            checked(listed(allowed@, *value), key@, one_of_label(allowed@), value.shown(), outcome),
        {
            let found = value.show();
            verdict(is_listed(&allowed, value), key, expected.as_str(), found.as_str())
        }
}

/// The text that a pattern was made from.
pub uninterp spec fn pattern_text(pattern: &regex::Regex) -> Seq<char>;

/// Whether a pattern matches somewhere in a text.
pub uninterp spec fn pattern_accepts(pattern: &regex::Regex, text: Seq<char>) -> bool;

/// `Regex::as_str`: the text that the pattern was made from. It depends on
/// the pattern alone.
#[verifier::external_body]
fn pattern_source(pattern: &regex::Regex) -> (source: String)
    ensures
        source@ == pattern_text(pattern),
{
    pattern.as_str().to_string()
}

/// `Regex::is_match`: whether the pattern matches somewhere in the text.
/// The answer depends on the pattern and the text alone.
#[verifier::external_body]
fn pattern_matches(pattern: &regex::Regex, text: &str) -> (matched: bool)
    ensures
        matched == pattern_accepts(pattern, text@),
{
    pattern.is_match(text)
}

/// What a check against a pattern says it expects.
pub open spec fn match_label(source: Seq<char>) -> Seq<char> {
    "match /"@ + source + "/"@
}

/// Ensure the textual value satisfies the provided regular expression: a
/// value in which the pattern matches nowhere is reported with the
/// pattern's text between slashes.
pub fn matches_regex<T: Textual>(pattern: regex::Regex) -> (check: impl Fn(&T, &str) -> Result<
    (),
    ConfigError,
>)
    ensures
        forall|value: &T, key: &str| call_requires(check, (value, key)),
        forall|value: &T, key: &str, outcome: Result<(), ConfigError>| #[trigger]
            call_ensures(check, (value, key), outcome) ==> checked(
                pattern_accepts(&pattern, value.shown()),
                key@,
                match_label(pattern_text(&pattern)),
                value.shown(),
                outcome,
            ),
{
    let source = pattern_source(&pattern);
    let mut label = String::new();
    label.append("match /");
    label.append(source.as_str());
    label.append("/");
    let ghost held = pattern;
    move |value: &T, key: &str| -> (outcome: Result<(), ConfigError>)
        ensures
            checked(pattern_accepts(&held, value.shown()), key@, label@, value.shown(), outcome),
        {
            let text = value.as_text();
            verdict(pattern_matches(&pattern, text), key, label.as_str(), text)
        }
}

/// Runs the checks on the value in their order; the first that objects
/// ends the run with its error.
pub fn check_all<T, F: Fn(&T, &str) -> Result<(), ConfigError>>(
    value: &T,
    key: &str,
    checks: &Vec<F>,
) -> (outcome: Result<(), ConfigError>)
    requires
        forall|i: int| 0 <= i < checks@.len() ==> call_requires(#[trigger] checks@[i], (value, key)),
    ensures
        match outcome {
            Ok(()) => forall|i: int|
                0 <= i < checks@.len() ==> call_ensures(#[trigger] checks@[i], (value, key), Ok(())),
            Err(error) => exists|i: int|
                0 <= i < checks@.len() && call_ensures(#[trigger] checks@[i], (value, key), Err(error))
                    && forall|j: int|
                    0 <= j < i ==> call_ensures(#[trigger] checks@[j], (value, key), Ok(())),
        },
{
    let mut i: usize = 0;
    while i < checks.len()
        invariant
            i <= checks@.len(),
            forall|j: int| 0 <= j < checks@.len() ==> call_requires(#[trigger] checks@[j], (value, key)),
            forall|j: int| 0 <= j < i ==> call_ensures(#[trigger] checks@[j], (value, key), Ok(())),
        decreases checks@.len() - i,
    {
        let outcome = (checks[i])(value, key);
        assert(call_ensures(checks@[i as int], (value, key), outcome));
        match outcome {
            Ok(unit) => {
                assert(outcome == Ok::<(), ConfigError>(()));
            },
            Err(error) => {
                return Err(error);
            },
        }
        i = i + 1;
    }
    Ok(())
}

} // verus!
