//! What is declared of a field of a record: the options that its
//! declaration gives, and the binding that follows from them.

use vstd::prelude::*;
use crate::bind::{kind_of, FieldKind, FieldSpec, Shape};
use crate::text::{same_text, texts};

verus! {

/// The options that the declaration of a field gives. A default and the
/// checks are held as the expressions that the declaration writes.
pub struct FieldOptions {
    pub rename: Option<String>,
    pub insensitive: bool,
    pub env: Option<String>,
    pub cli: Option<String>,
    pub default: Option<String>,
    pub optional: bool,
    pub validators: Vec<String>,
}

/// What is wrong with the options of a field.
#[derive(Clone, Copy, Debug, PartialEq, Eq, Structural)]
pub enum SchemaError {
    /// The field is optional and its type is no `Option`.
    OptionalNeedsOption,
    /// The field is optional and declares a default.
    OptionalWithDefault,
}

/// The text of an optional string.
pub open spec fn text_of_option(text: Option<String>) -> Option<Seq<char>> {
    match text {
        Some(t) => Some(t@),
        None => None,
    }
}

/// The later of two declarations of one option, where the later gives it.
pub open spec fn later(first: Option<String>, second: Option<String>) -> Option<Seq<char>> {
    if second is Some {
        text_of_option(second)
    } else {
        text_of_option(first)
    }
}

/// Whether a type of this name is read from a single value of the tree: a
/// primitive, a string or a list.
pub open spec fn scalar_name(name: Seq<char>) -> bool {
    ||| name == "String"@
    ||| name == "bool"@
    ||| name == "u8"@
    ||| name == "u16"@
    ||| name == "u32"@
    ||| name == "u64"@
    ||| name == "u128"@
    ||| name == "i8"@
    ||| name == "i16"@
    ||| name == "i32"@
    ||| name == "i64"@
    ||| name == "i128"@
    ||| name == "isize"@
    ||| name == "usize"@
    ||| name == "f32"@
    ||| name == "f64"@
    ||| name == "char"@
    ||| name == "Vec"@
}

/// What is wrong with the options of a field of the given type, if
/// anything: the first of the two faults counts.
pub open spec fn fault(options: FieldOptions, type_ident: Seq<char>) -> Option<SchemaError> {
    if options.optional && type_ident != "Option"@ {
        Some(SchemaError::OptionalNeedsOption)
    } else if options.optional && options.default is Some {
        Some(SchemaError::OptionalWithDefault)
    } else {
        None
    }
}

/// How a field with these options and this type is resolved when no value
/// is found for it.
pub open spec fn declared_kind(options: FieldOptions, type_ident: Seq<char>) -> FieldKind {
    if options.optional {
        FieldKind::Optional
    } else if options.default is Some {
        FieldKind::Default
    } else if scalar_name(type_ident) {
        FieldKind::Scalar
    } else {
        FieldKind::Nested
    }
}

impl SchemaError {
    /// The text that describes the fault to a person.
    pub fn message(&self) -> (text: &'static str)
        ensures
            text@ == match *self {
                SchemaError::OptionalNeedsOption => "optional fields must use Option<T>"@,
                SchemaError::OptionalWithDefault => "an optional field cannot declare a default"@,
            },
    {
        match self {
            SchemaError::OptionalNeedsOption => "optional fields must use Option<T>",
            SchemaError::OptionalWithDefault => "an optional field cannot declare a default",
        }
    }
}

impl FieldOptions {
    /// No option given.
    pub fn new() -> (options: FieldOptions)
        ensures
            options.rename is None,
            !options.insensitive,
            options.env is None,
            options.cli is None,
            options.default is None,
            !options.optional,
            options.validators@.len() == 0,
    {
        FieldOptions {
            rename: None,
            insensitive: false,
            env: None,
            cli: None,
            default: None,
            optional: false,
            validators: Vec::new(),
        }
    }

    /// Takes over what a later declaration of the same field gives: each
    /// name and the default where the later gives one, each flag where
    /// the later sets it, and the later's checks after those at hand.
    pub fn merge(&mut self, other: FieldOptions)
        ensures
            text_of_option(final(self).rename) == later(old(self).rename, other.rename),
            final(self).insensitive == (old(self).insensitive || other.insensitive),
            text_of_option(final(self).env) == later(old(self).env, other.env),
            text_of_option(final(self).cli) == later(old(self).cli, other.cli),
            text_of_option(final(self).default) == later(old(self).default, other.default),
            final(self).optional == (old(self).optional || other.optional),
            texts(final(self).validators@) == texts(old(self).validators@) + texts(other.validators@),
    {
        let ghost before = texts(self.validators@);
        let mut other = other;
        if other.rename.is_some() {
            self.rename = other.rename;
        }
        if other.insensitive {
            self.insensitive = true;
        }
        if other.env.is_some() {
            self.env = other.env;
        }
        if other.cli.is_some() {
            self.cli = other.cli;
        }
        if other.default.is_some() {
            self.default = other.default;
        }
        if other.optional {
            self.optional = true;
        }
        let ghost added = texts(other.validators@);
        if !other.validators.is_empty() {
            self.validators.append(&mut other.validators);
        }
        assert(texts(self.validators@) =~= before + added);
    }

    /// Holds the options against the field's type, given by the last name
    /// of its path.
    pub fn validate(&self, type_ident: &str) -> (checked: Result<(), SchemaError>)
        ensures
            match fault(*self, type_ident@) {
                Some(error) => checked == Err::<(), SchemaError>(error),
                None => checked is Ok,
            },
    {
        if self.optional && !is_option_type(type_ident) {
            return Err(SchemaError::OptionalNeedsOption);
        }
        if self.optional && self.default.is_some() {
            return Err(SchemaError::OptionalWithDefault);
        }
        Ok(())
    }
}

/// Whether a type whose path ends in `name` is read from a single value of
/// the tree.
pub fn is_scalar_type(name: &str) -> (scalar: bool)
    ensures
        scalar == scalar_name(name@),
{
    same_text(name, "String") || same_text(name, "bool") || same_text(name, "u8") || same_text(name, "u16")
        || same_text(name, "u32") || same_text(name, "u64") || same_text(name, "u128") || same_text(
        name,
        "i8",
    ) || same_text(name, "i16") || same_text(name, "i32") || same_text(name, "i64") || same_text(
        name,
        "i128",
    ) || same_text(name, "isize") || same_text(name, "usize") || same_text(name, "f32") || same_text(
        name,
        "f64",
    ) || same_text(name, "char") || same_text(name, "Vec")
}

/// Whether a type whose path ends in `name` is an `Option`.
pub fn is_option_type(name: &str) -> (option: bool)
    ensures
        option == (name@ == "Option"@),
{
    same_text(name, "Option")
}

/// How a field with these options and this type is resolved when no value
/// is found for it.
pub fn field_kind(options: &FieldOptions, type_ident: &str) -> (kind: FieldKind)
    ensures
        kind == declared_kind(*options, type_ident@),
{
    if options.optional {
        FieldKind::Optional
    } else if options.default.is_some() {
        FieldKind::Default
    } else if is_scalar_type(type_ident) {
        FieldKind::Scalar
    } else {
        FieldKind::Nested
    }
}

/// The binding of a field that is declared under `name` with a type whose
/// path ends in `type_ident`: it is looked up under the name that the
/// options give it, else under its own.
pub fn field_spec(name: &str, type_ident: &str, options: &FieldOptions) -> (spec: FieldSpec)
    ensures
        spec.key@ == match options.rename {
            Some(key) => key@,
            None => name@,
        },
        spec.case_insensitive == options.insensitive,
        text_of_option(spec.env_override) == text_of_option(options.env),
        text_of_option(spec.cli_override) == text_of_option(options.cli),
        spec.optional == options.optional,
        spec.shape == (if type_ident@ == "Vec"@ {
            Shape::Array
        } else if scalar_name(type_ident@) {
            Shape::Scalar
        } else {
            Shape::Record
        }),
        kind_of(spec, options.default is Some) == declared_kind(*options, type_ident@),
{
    let key = match &options.rename {
        Some(key) => key.clone(),
        None => name.to_string(),
    };
    let shape = if same_text(type_ident, "Vec") {
        Shape::Array
    } else if is_scalar_type(type_ident) {
        Shape::Scalar
    } else {
        Shape::Record
    };
    FieldSpec {
        key,
        case_insensitive: options.insensitive,
        env_override: options.env.clone(),
        cli_override: options.cli.clone(),
        optional: options.optional,
        shape,
    }
}

} // verus!
