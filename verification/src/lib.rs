//! Loading configuration from files, command-line arguments and the
//! environment into typed records.

use vstd::prelude::*;

pub mod bind;
pub mod convert;
pub mod error;
pub mod node;
pub mod number;
pub mod parser;
pub mod schema;
pub mod source;
pub mod text;
pub mod tree;
pub mod validators;

pub use crate::bind::{
    bind, bind_checked, bind_record, nest, resolve, Binding, EnvVar, FieldKind, FieldSpec, Overrides, Shape,
};
pub use crate::convert::FromNode;
pub use crate::error::ConfigError;
pub use crate::node::{ConfigNode, Table};
pub use crate::parser::{parse_str, FileFormat};
pub use crate::source::cli::CliArguments;
pub use crate::source::file::ConfigFile;
pub use crate::source::{merge_nodes, ConfigBuilder, ConfigSource};
