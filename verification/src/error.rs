//! The failures that loading and binding a configuration can end in.

use vstd::prelude::*;
use vstd::string::StringExecFns;

verus! {

/// Mathematical model of a [`ConfigError`].
pub ghost enum Failure {
    UnsupportedFormat(Seq<char>),
    MissingExtension,
    MissingValue(Seq<char>),
    TypeMismatch { field: Seq<char>, expected: Seq<char>, found: Seq<char> },
    Nested { section: Seq<char>, source: Box<Failure> },
    Io(Seq<char>),
    Toml(Seq<char>),
    Json(Seq<char>),
    Yaml(Seq<char>),
}

/// Unified error returned by the runtime components.
#[derive(Debug)]
pub enum ConfigError {
    /// The format chosen by the caller or inferred from the extension is not
    /// supported.
    UnsupportedFormat(String),
    /// File paths without an extension cannot be parsed automatically.
    MissingExtension,
    /// A required value was not found.
    MissingValue(String),
    /// A value cannot be converted into the expected target type, or a
    /// validator turned it down.
    TypeMismatch { field: String, expected: String, found: String },
    /// A failure inside a nested section, with the section's name.
    Nested { section: String, source: Box<ConfigError> },
    /// A failure of the filesystem, by its message.
    Io(String),
    /// TOML parsing failure, by the parser's diagnostic.
    Toml(String),
    /// JSON parsing failure, by the parser's diagnostic.
    Json(String),
    /// YAML parsing failure, by the parser's diagnostic.
    Yaml(String),
}

/// The failure that an error stands for.
pub open spec fn error_model(e: ConfigError) -> Failure
    decreases e,
{
    match e {
        ConfigError::UnsupportedFormat(name) => Failure::UnsupportedFormat(name@),
        ConfigError::MissingExtension => Failure::MissingExtension,
        ConfigError::MissingValue(field) => Failure::MissingValue(field@),
        ConfigError::TypeMismatch { field, expected, found } => Failure::TypeMismatch {
            field: field@,
            expected: expected@,
            found: found@,
        },
        ConfigError::Nested { section, source } => Failure::Nested {
            section: section@,
            source: Box::new(error_model(*source)),
        },
        ConfigError::Io(text) => Failure::Io(text@),
        ConfigError::Toml(text) => Failure::Toml(text@),
        ConfigError::Json(text) => Failure::Json(text@),
        ConfigError::Yaml(text) => Failure::Yaml(text@),
    }
}

impl View for ConfigError {
    type V = Failure;

    open spec fn view(&self) -> Failure {
        error_model(*self)
    }
}

impl Failure {
    /// The text that describes the failure to a person.
    pub open spec fn message(self) -> Seq<char>
        decreases self,
    {
        match self {
            Failure::UnsupportedFormat(name) => "unsupported file format '"@ + name + "'"@,
            Failure::MissingExtension => "configuration file is missing an extension"@,
            Failure::MissingValue(field) => "missing value for '"@ + field + "'"@,
            Failure::TypeMismatch { field, expected, found } => "type mismatch for '"@ + field
                + "': expected "@ + expected + ", found "@ + found,
            Failure::Nested { section, source } => "nested section '"@ + section + "' failed: "@
                + source.message(),
            Failure::Io(text) => text,
            Failure::Toml(text) => "toml parse error: "@ + text,
            Failure::Json(text) => "json parse error: "@ + text,
            Failure::Yaml(text) => "yaml parse error: "@ + text,
        }
    }
}

impl ConfigError {
    /// A `TypeMismatch` failure.
    pub fn mismatch(field: &str, expected: &str, found: &str) -> (e: ConfigError)
        ensures
            e@ == (Failure::TypeMismatch { field: field@, expected: expected@, found: found@ }),
    {
        ConfigError::TypeMismatch {
            field: String::from_str(field),
            expected: String::from_str(expected),
            found: String::from_str(found),
        }
    }

    /// Wraps a failure with the section in which it arose.
    pub fn nested(section: &str, source: ConfigError) -> (e: ConfigError)
        ensures
            e@ == (Failure::Nested { section: section@, source: Box::new(source@) }),
    {
        ConfigError::Nested { section: String::from_str(section), source: Box::new(source) }
    }

    /// A `MissingValue` failure.
    pub fn missing(key: &str) -> (e: ConfigError)
        ensures
            e@ == Failure::MissingValue(key@),
    {
        ConfigError::MissingValue(String::from_str(key))
    }

    /// The text that describes the failure to a person.
    pub fn to_string(&self) -> (text: String)
        ensures
            text@ == self@.message(),
        decreases self,
    {
        let mut out = String::new();
        match self {
            ConfigError::UnsupportedFormat(name) => {
                out.append("unsupported file format '");
                out.append(name.as_str());
                out.append("'");
            },
            ConfigError::MissingExtension => {
                out.append("configuration file is missing an extension");
            },
            ConfigError::MissingValue(field) => {
                out.append("missing value for '");
                out.append(field.as_str());
                out.append("'");
            },
            ConfigError::TypeMismatch { field, expected, found } => {
                out.append("type mismatch for '");
                out.append(field.as_str());
                out.append("': expected ");
                out.append(expected.as_str());
                out.append(", found ");
                out.append(found.as_str());
            },
            ConfigError::Nested { section, source } => {
                out.append("nested section '");
                out.append(section.as_str());
                out.append("' failed: ");
                let inner = source.to_string();
                out.append(inner.as_str());
            },
            ConfigError::Io(text) => {
                out.append(text.as_str());
            },
            ConfigError::Toml(text) => {
                out.append("toml parse error: ");
                out.append(text.as_str());
            },
            ConfigError::Json(text) => {
                out.append("json parse error: ");
                out.append(text.as_str());
            },
            ConfigError::Yaml(text) => {
                out.append("yaml parse error: ");
                out.append(text.as_str());
            },
        }
        out
    }
}

} // verus!
