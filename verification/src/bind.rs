//! Binding the fields of a typed record to a configuration tree.

use vstd::prelude::*;
use vstd::string::{StrSliceExecFns, StringExecFns};
use crate::convert::FromNode;
use crate::error::{ConfigError, Failure};
use crate::node::{lemma_found_key, ConfigNode, Table};
use crate::tree::{found_key, Tree};
use crate::text::{chars_of, same_text, starts_with, texts};
use crate::validators::check_all;

verus! {

/// One variable of the environment.
pub struct EnvVar {
    pub name: String,
    pub value: String,
}

/// What may stand in for a value of the tree: the arguments of the
/// process, without the program's name, and the variables of its
/// environment.
pub struct Overrides {
    pub args: Vec<String>,
    pub vars: Vec<EnvVar>,
}

/// The shape of the value that a field takes.
#[derive(Clone, Copy, Debug, PartialEq, Eq, Structural)]
pub enum Shape {
    Scalar,
    Array,
    Record,
}

/// How a field is resolved when no value is found for it.
#[derive(Clone, Copy, Debug, PartialEq, Eq, Structural)]
pub enum FieldKind {
    Optional,
    Default,
    Scalar,
    Nested,
}

/// What the binding of one field goes by.
pub struct FieldSpec {
    /// The name under which the field is looked up in the tree.
    pub key: String,
    /// Whether the lookup ignores the case of ASCII letters.
    pub case_insensitive: bool,
    /// The variable of the environment that is asked before the tree.
    pub env_override: Option<String>,
    /// The argument of the process that is asked before the environment.
    pub cli_override: Option<String>,
    /// Whether a field without a value resolves to no value.
    pub optional: bool,
    /// The shape of the field's value.
    pub shape: Shape,
}

/// The value of an argument of the shape `--<name>=<value>`.
pub open spec fn flag_value(arg: Seq<char>, name: Seq<char>) -> Option<Seq<char>> {
    let prefix = "--"@ + name + "="@;
    if prefix.is_prefix_of(arg) {
        Some(arg.skip(prefix.len() as int))
    } else {
        None
    }
}

/// The value of the first argument from position `i` on that has the shape
/// `--<name>=<value>`.
pub open spec fn cli_value(args: Seq<Seq<char>>, name: Seq<char>, i: int) -> Option<Seq<char>>
    decreases args.len() - i,
{
    if i < 0 || i >= args.len() {
        None
    } else {
        match flag_value(args[i], name) {
            Some(value) => Some(value),
            None => cli_value(args, name, i + 1),
        }
    }
}

/// The value of the first variable from position `i` on that is called `name`.
pub open spec fn env_value(vars: Seq<EnvVar>, name: Seq<char>, i: int) -> Option<Seq<char>>
    decreases vars.len() - i,
{
    if i < 0 || i >= vars.len() {
        None
    } else if vars[i].name@ == name {
        Some(vars[i].value@)
    } else {
        env_value(vars, name, i + 1)
    }
}

/// The value that the overrides give a field: that of its argument, else
/// that of its variable.
pub open spec fn override_value(overrides: Overrides, spec: FieldSpec) -> Option<Seq<char>> {
    let from_cli = match spec.cli_override {
        Some(name) => cli_value(texts(overrides.args@), name@, 0),
        None => None,
    };
    match from_cli {
        Some(value) => Some(value),
        None => match spec.env_override {
            Some(name) => env_value(overrides.vars@, name@, 0),
            None => None,
        },
    }
}

/// What a field resolves to, and what is left of the table: a value from
/// the overrides leaves the table as it is, a value from the table is
/// taken out of it.
pub open spec fn resolved(m: Map<Seq<char>, Tree>, spec: FieldSpec, overrides: Overrides) -> (
    Option<Tree>,
    Map<Seq<char>, Tree>,
) {
    match override_value(overrides, spec) {
        Some(value) => (Some(Tree::Scalar(value)), m),
        None => match found_key(m, spec.key@, spec.case_insensitive) {
            Some(key) => (Some(m[key]), m.remove(key)),
            None => (None, m),
        },
    }
}

/// How a field is resolved when no value is found for it: an optional
/// field has no value, one with a default takes it, a scalar or an array
/// is missing, and a record is read from what is left of the table.
pub open spec fn kind_of(spec: FieldSpec, has_default: bool) -> FieldKind {
    if spec.optional {
        FieldKind::Optional
    } else if has_default {
        FieldKind::Default
    } else if spec.shape == Shape::Record {
        FieldKind::Nested
    } else {
        FieldKind::Scalar
    }
}

/// `outcome` is what `T` made of a node that stands for `tree`, read
/// under `key`.
pub open spec fn reads<T: FromNode>(tree: Tree, key: Seq<char>, outcome: Result<T, ConfigError>) -> bool {
    exists|node: &ConfigNode, name: &str|
        node@ == tree && name@ == key && #[trigger] call_ensures(T::from_node, (node, name), outcome)
}

/// `outcome` is what binding a field yields once it resolved to `found`.
pub open spec fn bound<T: FromNode>(
    found: (Option<Tree>, Map<Seq<char>, Tree>),
    spec: FieldSpec,
    default: Option<T>,
    outcome: Result<T, ConfigError>,
) -> bool {
    match found.0 {
        Some(tree) => reads::<T>(tree, spec.key@, outcome),
        None => match kind_of(spec, default is Some) {
            FieldKind::Optional => reads::<T>(Tree::Null, spec.key@, outcome),
            FieldKind::Default => outcome matches Ok(value) && Some(value) == default,
            FieldKind::Scalar => outcome matches Err(e) && e@ == Failure::MissingValue(spec.key@),
            FieldKind::Nested => reads::<T>(Tree::Table(found.1), spec.key@, outcome),
        },
    }
}

/// A field without a value that reads an `Option` resolves to no value.
pub proof fn lemma_absent_option<T: FromNode>(key: Seq<char>, outcome: Result<Option<T>, ConfigError>)
    requires
        reads::<Option<T>>(Tree::Null, key, outcome),
    ensures
        outcome matches Ok(None),
{
}

/// A list that is read from null is empty.
pub proof fn lemma_null_list<T: FromNode>(key: Seq<char>, outcome: Result<Vec<T>, ConfigError>)
    requires
        reads::<Vec<T>>(Tree::Null, key, outcome),
    ensures
        outcome matches Ok(list) && list@.len() == 0,
{
}

/// An optional field for which neither the overrides nor the table have a
/// value resolves to no value.
pub proof fn lemma_optional_field<T: FromNode>(
    m: Map<Seq<char>, Tree>,
    spec: FieldSpec,
    default: Option<Option<T>>,
    overrides: Overrides,
    outcome: Result<Option<T>, ConfigError>,
)
    requires
        spec.optional,
        resolved(m, spec, overrides).0 is None,
        bound::<Option<T>>(resolved(m, spec, overrides), spec, default, outcome),
    ensures
        outcome matches Ok(None),
{
    lemma_absent_option::<T>(spec.key@, outcome);
}

impl FieldSpec {
    /// A required scalar field that is looked up under `key` as it is
    /// written, without overrides.
    pub fn new(key: &str) -> (spec: FieldSpec)
        ensures
            spec.key@ == key@,
            !spec.case_insensitive,
            spec.env_override is None,
            spec.cli_override is None,
            !spec.optional,
            spec.shape == Shape::Scalar,
    {
        FieldSpec {
            key: key.to_string(),
            case_insensitive: false,
            env_override: None,
            cli_override: None,
            optional: false,
            shape: Shape::Scalar,
        }
    }
}

impl Overrides {
    /// No arguments and no variables.
    pub fn none() -> (overrides: Overrides)
        ensures
            overrides.args@.len() == 0,
            overrides.vars@.len() == 0,
    {
        Overrides { args: Vec::new(), vars: Vec::new() }
    }

    /// The value of the first argument of the shape `--<name>=<value>`.
    pub fn argument(&self, name: &str) -> (value: Option<String>)
        ensures
            match cli_value(texts(self.args@), name@, 0) {
                Some(text) => value matches Some(v) && v@ == text,
                None => value is None,
            },
    {
        let mut lead = String::new();
        lead.append("--");
        lead.append(name);
        lead.append("=");
        let prefix = chars_of(lead.as_str());
        let mut i: usize = 0;
        while i < self.args.len()
            invariant
                i <= self.args@.len(),
                prefix@ == "--"@ + name@ + "="@,
                cli_value(texts(self.args@), name@, 0) == cli_value(texts(self.args@), name@, i as int),
            decreases self.args@.len() - i,
        {
            let arg = self.args[i].as_str();
            assert(texts(self.args@)[i as int] == arg@);
            let chars = chars_of(arg);
            if starts_with(&chars, &prefix) {
                let value = arg.substring_char(prefix.len(), chars.len());
                assert(value@ =~= arg@.skip(prefix@.len() as int));
                return Some(value.to_string());
            }
            i = i + 1;
        }
        None
    }

    /// The value of the first variable that is called `name`.
    pub fn variable(&self, name: &str) -> (value: Option<String>)
        ensures
            match env_value(self.vars@, name@, 0) {
                Some(text) => value matches Some(v) && v@ == text,
                None => value is None,
            },
    {
        let mut i: usize = 0;
        while i < self.vars.len()
            invariant
                i <= self.vars@.len(),
                env_value(self.vars@, name@, 0) == env_value(self.vars@, name@, i as int),
            decreases self.vars@.len() - i,
        {
            if same_text(self.vars[i].name.as_str(), name) {
                return Some(self.vars[i].value.clone());
            }
            i = i + 1;
        }
        None
    }

    /// The value that the overrides give a field.
    pub fn value_for(&self, spec: &FieldSpec) -> (value: Option<String>)
        ensures
            match override_value(*self, *spec) {
                Some(text) => value matches Some(v) && v@ == text,
                None => value is None,
            },
    {
        let from_cli = match &spec.cli_override {
            Some(name) => self.argument(name.as_str()),
            None => None,
        };
        match from_cli {
            Some(value) => Some(value),
            None => match &spec.env_override {
                Some(name) => self.variable(name.as_str()),
                None => None,
            },
        }
    }
}

/// How a field is resolved when no value is found for it.
pub fn field_kind(spec: &FieldSpec, has_default: bool) -> (kind: FieldKind)
    ensures
        kind == kind_of(*spec, has_default),
{
    if spec.optional {
        FieldKind::Optional
    } else if has_default {
        FieldKind::Default
    } else {
        match spec.shape {
            Shape::Record => FieldKind::Nested,
            _ => FieldKind::Scalar,
        }
    }
}

/// Resolves a field: asks the overrides, then the table, from which the
/// entry that is found is taken out.
pub fn resolve(map: &mut Table, spec: &FieldSpec, overrides: &Overrides) -> (found: Option<ConfigNode>)
    ensures
        final(map)@ == resolved(old(map)@, *spec, *overrides).1,
        match resolved(old(map)@, *spec, *overrides).0 {
            Some(tree) => found matches Some(node) && node@ == tree,
            None => found is None,
        },
{
    match overrides.value_for(spec) {
        Some(value) => Some(ConfigNode::Scalar(value)),
        None => {
            proof {
                use_type_invariant(&*map);
                lemma_found_key(*map, spec.key@, spec.case_insensitive);
            }
            match map.find_key(spec.key.as_str(), spec.case_insensitive) {
                Some(key) => map.remove(key.as_str()),
                None => None,
            }
        },
    }
}

/// Binds one field: resolves it, reads the typed value from what was
/// found and, where nothing was found, goes by the field's kind.
pub fn bind<T: FromNode>(
    map: &mut Table,
    spec: &FieldSpec,
    default: Option<T>,
    overrides: &Overrides,
) -> (outcome: Result<T, ConfigError>)
    ensures
        final(map)@ == resolved(old(map)@, *spec, *overrides).1,
        bound::<T>(resolved(old(map)@, *spec, *overrides), *spec, default, outcome),
{
    let key = spec.key.as_str();
    match resolve(map, spec, overrides) {
        Some(node) => {
            let outcome = T::from_node(&node, key);
            assert(call_ensures(T::from_node, (&node, key), outcome));
            outcome
        },
        None => match field_kind(spec, default.is_some()) {
            FieldKind::Optional => {
                let node = ConfigNode::Null;
                let outcome = T::from_node(&node, key);
                assert(call_ensures(T::from_node, (&node, key), outcome));
                outcome
            },
            FieldKind::Default => Ok(default.unwrap()),
            FieldKind::Scalar => Err(ConfigError::missing(key)),
            FieldKind::Nested => {
                let node = ConfigNode::Table(map.clone());
                let outcome = T::from_node(&node, key);
                assert(call_ensures(T::from_node, (&node, key), outcome));
                outcome
            },
        },
    }
}

/// `outcome` is what `check` said of `value` when asked under `key`.
pub open spec fn judged<T, F: Fn(&T, &str) -> Result<(), ConfigError>>(
    check: F,
    value: T,
    key: Seq<char>,
    outcome: Result<(), ConfigError>,
) -> bool {
    exists|name: &str| name@ == key && #[trigger] call_ensures(check, (&value, name), outcome)
}

/// `outcome` is what binding a field yields once it resolved to `found`
/// and the checks were run on its value in their order: the value, where
/// it was read and every check passed it; else the failure to read it, or
/// the objection of the first check that did not pass it.
pub open spec fn bound_and_checked<T: FromNode, F: Fn(&T, &str) -> Result<(), ConfigError>>(
    found: (Option<Tree>, Map<Seq<char>, Tree>),
    spec: FieldSpec,
    default: Option<T>,
    checks: Seq<F>,
    outcome: Result<T, ConfigError>,
) -> bool {
    match outcome {
        Ok(value) => bound::<T>(found, spec, default, Ok(value)) && forall|i: int|
            0 <= i < checks.len() ==> judged(#[trigger] checks[i], value, spec.key@, Ok(())),
        Err(error) => bound::<T>(found, spec, default, Err(error)) || exists|value: T, i: int|
            bound::<T>(found, spec, default, Ok(value)) && 0 <= i < checks.len() && #[trigger] judged(
                checks[i],
                value,
                spec.key@,
                Err(error),
            ) && forall|j: int| 0 <= j < i ==> judged(#[trigger] checks[j], value, spec.key@, Ok(())),
    }
}

/// Binds one field and runs the checks on its value in their order; the
/// first check that objects ends the binding with its error.
pub fn bind_checked<T: FromNode, F: Fn(&T, &str) -> Result<(), ConfigError>>(
    map: &mut Table,
    spec: &FieldSpec,
    default: Option<T>,
    checks: &Vec<F>,
    overrides: &Overrides,
) -> (outcome: Result<T, ConfigError>)
    requires
        forall|i: int, value: &T, key: &str|
            0 <= i < checks@.len() ==> #[trigger] call_requires(checks@[i], (value, key)),
    ensures
        final(map)@ == resolved(old(map)@, *spec, *overrides).1,
        bound_and_checked(resolved(old(map)@, *spec, *overrides), *spec, default, checks@, outcome),
{
    let key = spec.key.as_str();
    match bind(map, spec, default, overrides) {
        Ok(value) => match check_all(&value, key, checks) {
            Ok(()) => {
                assert forall|i: int| 0 <= i < checks@.len() implies judged(
                    #[trigger] checks@[i],
                    value,
                    spec.key@,
                    Ok(()),
                ) by {
                    assert(call_ensures(checks@[i], (&value, key), Ok(())));
                }
                Ok(value)
            },
            Err(error) => {
                proof {
                    let i = choose|i: int|
                        0 <= i < checks@.len() && call_ensures(
                            #[trigger] checks@[i],
                            (&value, key),
                            Err(error),
                        )
                            && forall|j: int|
                            0 <= j < i ==> call_ensures(#[trigger] checks@[j], (&value, key), Ok(()));
                    assert(judged(checks@[i], value, spec.key@, Err(error)));
                    assert forall|j: int| 0 <= j < i implies judged(
                        #[trigger] checks@[j],
                        value,
                        spec.key@,
                        Ok(()),
                    ) by {
                        assert(call_ensures(checks@[j], (&value, key), Ok(())));
                    }
                }
                Err(error)
            },
        },
        Err(error) => Err(error),
    }
}

/// All that the binding of one field goes by: how it is looked up, the
/// value that it takes where none is found, and the checks that its value
/// has to pass, in their order.
pub struct Binding<T, F> {
    pub field: FieldSpec,
    pub default: Option<T>,
    pub validators: Vec<F>,
}

impl<T: FromNode, F: Fn(&T, &str) -> Result<(), ConfigError>> Binding<T, F> {
    /// Whether the binding declares at most one of a default and of being
    /// optional.
    pub fn is_consistent(&self) -> (consistent: bool)
        ensures
            consistent == !(self.field.optional && self.default is Some),
    {
        !(self.field.optional && self.default.is_some())
    }

    /// Binds the field and runs the checks on its value; see
    /// [`bind_checked`].
    pub fn apply(self, map: &mut Table, overrides: &Overrides) -> (outcome: Result<T, ConfigError>)
        requires
            forall|i: int, value: &T, key: &str|
                0 <= i < self.validators@.len() ==> #[trigger] call_requires(
                    self.validators@[i],
                    (value, key),
                ),
        ensures
            final(map)@ == resolved(old(map)@, self.field, *overrides).1,
            bound_and_checked(
                resolved(old(map)@, self.field, *overrides),
                self.field,
                self.default,
                self.validators@,
                outcome,
            ),
    {
        bind_checked(map, &self.field, self.default, &self.validators, overrides)
    }
}

/// The tree from which a nested record is read once its field resolved to
/// `found`: the tree that was found, else the table that is left.
pub open spec fn record_scope(found: (Option<Tree>, Map<Seq<char>, Tree>)) -> Tree {
    match found.0 {
        Some(tree) => tree,
        None => Tree::Table(found.1),
    }
}

/// `wrapped` is `inner` with its failure, if any, put inside the section.
pub open spec fn nested_in<T>(
    section: Seq<char>,
    inner: Result<T, ConfigError>,
    wrapped: Result<T, ConfigError>,
) -> bool {
    match inner {
        Ok(value) => wrapped == Ok::<T, ConfigError>(value),
        Err(error) => wrapped matches Err(e) && e@ == (Failure::Nested {
            section,
            source: Box::new(error@),
        }),
    }
}

/// Binds a nested record: resolves the field and has `load` bind the
/// record to the tree that was found or, where the key is absent, to the
/// table that is left. A failure of `load` is put inside a `Nested`
/// failure that names the field.
pub fn bind_record<T, L: Fn(&ConfigNode) -> Result<T, ConfigError>>(
    map: &mut Table,
    spec: &FieldSpec,
    overrides: &Overrides,
    load: &L,
) -> (outcome: Result<T, ConfigError>)
    requires
        forall|node: &ConfigNode| call_requires(*load, (node,)),
    ensures
        final(map)@ == resolved(old(map)@, *spec, *overrides).1,
        exists|node: &ConfigNode, inner: Result<T, ConfigError>|
            node@ == record_scope(resolved(old(map)@, *spec, *overrides)) && #[trigger] call_ensures(
                *load,
                (node,),
                inner,
            ) && nested_in(spec.key@, inner, outcome),
{
    let node = match resolve(map, spec, overrides) {
        Some(node) => node,
        None => ConfigNode::Table(map.clone()),
    };
    let inner = load(&node);
    assert(call_ensures(*load, (&node,), inner));
    nest(spec.key.as_str(), inner)
}

/// Names the section in which the binding of a nested record failed.
pub fn nest<T>(section: &str, outcome: Result<T, ConfigError>) -> (wrapped: Result<T, ConfigError>)
    ensures
        nested_in(section@, outcome, wrapped),
{
    match outcome {
        Ok(value) => Ok(value),
        Err(error) => Err(ConfigError::nested(section, error)),
    }
}

} // verus!
