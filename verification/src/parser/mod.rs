//! The file formats and the parsers that turn a text into a configuration tree.

use vstd::prelude::*;
use crate::error::{ConfigError, Failure};
use crate::node::ConfigNode;
use crate::tree::Tree;
use crate::text::{lowercase, same_text, to_lowercase};

pub mod json;
pub mod toml;
pub mod yaml;

verus! {

/// Supported on-disk formats.
#[derive(Clone, Copy, Debug, PartialEq, Eq, Structural)]
pub enum FileFormat {
    Toml,
    Yaml,
    Json,
}

/// The format that a lower-case name or file extension stands for.
pub open spec fn format_named(name: Seq<char>) -> Option<FileFormat> {
    if name == "toml"@ {
        Some(FileFormat::Toml)
    } else if name == "yaml"@ || name == "yml"@ {
        Some(FileFormat::Yaml)
    } else if name == "json"@ {
        Some(FileFormat::Json)
    } else {
        None
    }
}

/// The tree that a text is parsed to in a format, if it is a document of
/// that format.
pub open spec fn parsed_tree(text: Seq<char>, format: FileFormat) -> Option<Tree> {
    match format {
        FileFormat::Toml => match toml::toml_document(text) {
            Some(tree) => Some(toml::toml_node(tree)),
            None => None,
        },
        FileFormat::Yaml => match yaml::yaml_documents(text) {
            Some(documents) => Some(yaml::first_document(documents)),
            None => None,
        },
        FileFormat::Json => match json::json_document(text) {
            Some(tree) => Some(json::json_node(tree)),
            None => None,
        },
    }
}

impl FileFormat {
    /// The lower-case identifier of the format.
    pub open spec fn name(self) -> Seq<char> {
        match self {
            FileFormat::Toml => "toml"@,
            FileFormat::Yaml => "yaml"@,
            FileFormat::Json => "json"@,
        }
    }

    /// Returns the lower-case identifier.
    pub fn label(&self) -> (label: &'static str)
        ensures
            label@ == self.name(),
    {
        match self {
            FileFormat::Toml => "toml",
            FileFormat::Yaml => "yaml",
            FileFormat::Json => "json",
        }
    }

    /// All recognised extensions for the format.
    pub fn extensions(&self) -> (list: Vec<&'static str>)
        ensures
            list@.len() > 0,
            forall|i: int| 0 <= i < list@.len() ==> format_named((#[trigger] list@[i])@) == Some(*self),
            forall|name: Seq<char>|
                format_named(name) == Some(*self) ==> exists|i: int|
                    0 <= i < list@.len() && (#[trigger] list@[i])@ == name,
    {
        proof {
            lemma_names_differ();
        }
        let mut list: Vec<&'static str> = Vec::new();
        match self {
            FileFormat::Toml => {
                list.push("toml");
                assert(list@[0]@ == "toml"@);
            },
            FileFormat::Yaml => {
                list.push("yaml");
                list.push("yml");
                assert(list@[0]@ == "yaml"@);
                assert(list@[1]@ == "yml"@);
            },
            FileFormat::Json => {
                list.push("json");
                assert(list@[0]@ == "json"@);
            },
        }
        list
    }

    /// The format that a lower-case name stands for; a name of no format
    /// is handed back in the error.
    pub fn from_label(name: &str) -> (format: Result<FileFormat, ConfigError>)
        ensures
            match format_named(name@) {
                Some(f) => format == Ok::<FileFormat, ConfigError>(f),
                None => format matches Err(e) && e@ == Failure::UnsupportedFormat(name@),
            },
    {
        proof {
            lemma_names_differ();
        }
        if same_text(name, "toml") {
            Ok(FileFormat::Toml)
        } else if same_text(name, "yaml") || same_text(name, "yml") {
            Ok(FileFormat::Yaml)
        } else if same_text(name, "json") {
            Ok(FileFormat::Json)
        } else {
            Err(ConfigError::UnsupportedFormat(name.to_string()))
        }
    }

    /// The format that a name stands for, whatever the case of its letters.
    pub fn from_name(name: &str) -> (format: Result<FileFormat, ConfigError>)
        ensures
            match format_named(lowercase(name@)) {
                Some(f) => format == Ok::<FileFormat, ConfigError>(f),
                None => format matches Err(e) && e@ == Failure::UnsupportedFormat(lowercase(name@)),
            },
    {
        let lower = to_lowercase(name);
        FileFormat::from_label(lower.as_str())
    }
}

impl core::str::FromStr for FileFormat {
    type Err = ConfigError;

    /// The format that a name stands for, whatever the case of its
    /// letters; a name of no format is handed back in lower case in the
    /// error.
    fn from_str(s: &str) -> (format: Result<FileFormat, ConfigError>)
        ensures
            match format_named(lowercase(s@)) {
                Some(f) => format == Ok::<FileFormat, ConfigError>(f),
                None => format matches Err(e) && e@ == Failure::UnsupportedFormat(lowercase(s@)),
            },
    {
        FileFormat::from_name(s)
    }
}

/// The four names of formats are four different texts.
pub proof fn lemma_names_differ()
    ensures
        "toml"@ != "yaml"@,
        "toml"@ != "yml"@,
        "toml"@ != "json"@,
        "yaml"@ != "yml"@,
        "yaml"@ != "json"@,
        "yml"@ != "json"@,
{
    reveal_strlit("toml");
    reveal_strlit("yaml");
    reveal_strlit("yml");
    reveal_strlit("json");
    assert("toml"@[0] == 't');
    assert("yaml"@[0] == 'y');
    assert("yml"@[0] == 'y');
    assert("json"@[0] == 'j');
    assert("yaml"@.len() == 4);
    assert("yml"@.len() == 3);
}

/// Whether a parser for the format is at hand; there is one for each.
pub fn format_supported(format: FileFormat) -> (supported: bool)
    ensures
        supported,
{
    match format {
        FileFormat::Toml => true,
        FileFormat::Yaml => true,
        FileFormat::Json => true,
    }
}

/// The format that a file extension stands for, whatever the case of its
/// letters; a file without an extension has no format.
pub fn infer_from_extension(extension: Option<&str>) -> (format: Result<FileFormat, ConfigError>)
    ensures
        match extension {
            None => format matches Err(e) && e@ == Failure::MissingExtension,
            Some(ext) => match format_named(lowercase(ext@)) {
                Some(f) => format == Ok::<FileFormat, ConfigError>(f),
                None => format matches Err(e) && e@ == Failure::UnsupportedFormat(lowercase(ext@)),
            },
        },
{
    match extension {
        None => Err(ConfigError::MissingExtension),
        Some(ext) => FileFormat::from_name(ext),
    }
}

/// `extension` stands somewhere in `path` behind a dot and holds no dot
/// itself.
pub open spec fn extension_in(path: Seq<char>, extension: Seq<char>) -> bool {
    &&& !extension.contains('.')
    &&& exists|at: int|
        0 <= at && at + 1 + extension.len() <= path.len() && #[trigger] path.subrange(
            at,
            at + 1 + extension.len(),
        ) == seq!['.'] + extension
}

/// `extension` is such as a file at `path` can have: none, or one that
/// stands in the path behind a dot.
pub open spec fn extension_of(path: Seq<char>, extension: Option<Seq<char>>) -> bool {
    match extension {
        Some(ext) => extension_in(path, ext),
        None => true,
    }
}

/// `Path::extension`: the extension of the file that the path names, where
/// it has one. Which part of a path names the file differs from one
/// system to another; on each, the extension is the part of the file's
/// name behind its last dot, so it stands in the path behind a dot and
/// holds none.
#[verifier::external_body]
fn path_extension(path: &str) -> (extension: Option<String>)
    ensures
        extension matches Some(ext) ==> extension_in(path@, ext@),
{
    std::path::Path::new(path).extension().and_then(|ext| ext.to_str()).map(|ext| ext.to_string())
}

/// `format` is what a file resolves to whose extension, if it has one, is
/// `extension` and for which the caller named the format `explicit`, if
/// any: the named format, else the one that the extension stands for.
pub open spec fn resolves_to(
    explicit: Option<FileFormat>,
    extension: Option<Seq<char>>,
    format: Result<FileFormat, ConfigError>,
) -> bool {
    match explicit {
        Some(f) => format == Ok::<FileFormat, ConfigError>(f),
        None => match extension {
            None => format matches Err(e) && e@ == Failure::MissingExtension,
            Some(ext) => match format_named(lowercase(ext)) {
                Some(f) => format == Ok::<FileFormat, ConfigError>(f),
                None => format matches Err(e) && e@ == Failure::UnsupportedFormat(lowercase(ext)),
            },
        },
    }
}

/// `format` is what the file at `path` resolves to, for which the caller
/// named the format `explicit`, if any: the named format, else the one
/// that the extension stands for which the path is found to have.
pub open spec fn resolved_from(
    path: Seq<char>,
    explicit: Option<FileFormat>,
    format: Result<FileFormat, ConfigError>,
) -> bool {
    exists|extension: Option<Seq<char>>|
        extension_of(path, extension) && #[trigger] resolves_to(explicit, extension, format)
}

/// A path without a dot has no extension: unless the caller names a
/// format, none is found for it.
pub proof fn lemma_path_without_dot(path: Seq<char>, format: Result<FileFormat, ConfigError>)
    requires
        !path.contains('.'),
        resolved_from(path, None, format),
    ensures
        format matches Err(e) && e@ == Failure::MissingExtension,
{
    let extension = choose|extension: Option<Seq<char>>|
        extension_of(path, extension) && #[trigger] resolves_to(None, extension, format);
    if extension is Some {
        let ext = extension->Some_0;
        let at = choose|at: int|
            0 <= at && at + 1 + ext.len() <= path.len() && #[trigger] path.subrange(at, at + 1 + ext.len())
                == seq!['.'] + ext;
        assert(path.subrange(at, at + 1 + ext.len())[0] == '.');
        assert(path[at] == '.');
    }
}

/// `loaded` is what parsing gives in the format `f` for what reading gave.
pub open spec fn parsed_as(
    contents: Result<String, ConfigError>,
    f: FileFormat,
    loaded: Result<ConfigNode, ConfigError>,
) -> bool {
    match contents {
        Err(error) => loaded matches Err(e) && e@ == error@,
        Ok(text) => match parsed_tree(text@, f) {
            Some(tree) => loaded matches Ok(node) && node@ == tree,
            None => loaded matches Err(e) && match f {
                FileFormat::Toml => e is Toml,
                FileFormat::Yaml => e is Yaml,
                FileFormat::Json => e is Json,
            },
        },
    }
}

/// The format in which a file is to be read, given its extension: the one
/// that the caller names, else the one that the extension stands for.
pub fn resolve_format(explicit: Option<FileFormat>, extension: Option<&str>) -> (format: Result<
    FileFormat,
    ConfigError,
>)
    ensures
        resolves_to(
            explicit,
            match extension {
                Some(ext) => Some(ext@),
                None => None,
            },
            format,
        ),
{
    let format = match explicit {
        Some(format) => format,
        None => match infer_from_extension(extension) {
            Ok(format) => format,
            Err(error) => {
                return Err(error);
            },
        },
    };
    if !format_supported(format) {
        return Err(ConfigError::UnsupportedFormat(format.label().to_string()));
    }
    Ok(format)
}

/// The format in which the file at `path` is to be read: the one that the
/// caller names, else the one that the extension of the path stands for.
pub fn resolve_path(path: &str, explicit: Option<FileFormat>) -> (format: Result<FileFormat, ConfigError>)
    ensures
        resolved_from(path@, explicit, format),
{
    let extension = path_extension(path);
    let format = match &extension {
        Some(ext) => resolve_format(explicit, Some(ext.as_str())),
        None => resolve_format(explicit, None),
    };
    proof {
        let ghost found = match extension {
            Some(ext) => Some(ext@),
            None => None,
        };
        assert(extension_of(path@, found) && resolves_to(explicit, found, format));
    }
    format
}

/// Parses what was read from a file in the given format; a failure to
/// read is handed on.
pub fn parse_contents(contents: Result<String, ConfigError>, format: FileFormat) -> (loaded: Result<
    ConfigNode,
    ConfigError,
>)
    ensures
        parsed_as(contents, format, loaded),
{
    match contents {
        Ok(text) => parse_str(text.as_str(), format),
        Err(error) => Err(error),
    }
}

/// Parse a configuration file into a [`ConfigNode`]. The format is
/// resolved first; only where that succeeds is the file read, by `read`,
/// and what was read is parsed.
pub fn load_from_path<R: Fn(&str) -> Result<String, ConfigError>>(
    path: &str,
    explicit: Option<FileFormat>,
    read: &R,
) -> (loaded: Result<ConfigNode, ConfigError>)
    requires
        call_requires(*read, (path,)),
    ensures
        exists|format: Result<FileFormat, ConfigError>| #[trigger]
            resolved_from(path@, explicit, format) && match format {
                Err(error) => loaded matches Err(e) && e@ == error@,
                Ok(f) => exists|contents: Result<String, ConfigError>| #[trigger]
                    call_ensures(*read, (path,), contents) && parsed_as(contents, f, loaded),
            },
{
    let format = resolve_path(path, explicit);
    match format {
        Err(error) => {
            assert(resolved_from(path@, explicit, format));
            Err(error)
        },
        Ok(f) => {
            let contents = read(path);
            assert(call_ensures(*read, (path,), contents));
            let loaded = parse_contents(contents, f);
            assert(resolved_from(path@, explicit, Ok::<FileFormat, ConfigError>(f)));
            loaded
        },
    }
}

/// Parse an in-memory string.
pub fn parse_str(input: &str, format: FileFormat) -> (parsed: Result<ConfigNode, ConfigError>)
    ensures
        match parsed_tree(input@, format) {
            Some(tree) => parsed matches Ok(node) && node@ == tree,
            None => parsed matches Err(e) && match format {
                FileFormat::Toml => e is Toml,
                FileFormat::Yaml => e is Yaml,
                FileFormat::Json => e is Json,
            },
        },
{
    match format {
        FileFormat::Toml => toml::parse(input),
        FileFormat::Yaml => yaml::parse(input),
        FileFormat::Json => json::parse(input),
    }
}

} // verus!
