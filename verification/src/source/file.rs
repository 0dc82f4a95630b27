//! A configuration file as a source: where it lies, in which format it is
//! read and with which priority.

use vstd::prelude::*;
use crate::error::ConfigError;
use crate::node::ConfigNode;
use crate::parser::{load_from_path, parsed_as, resolve_path, resolved_from, FileFormat};

verus! {

/// Source backed by a configuration file on disk.
pub struct ConfigFile {
    path: String,
    format: Option<FileFormat>,
    priority: u8,
}

impl ConfigFile {
    /// The path of the file.
    pub closed spec fn location(&self) -> Seq<char> {
        self.path@
    }

    /// The format that the caller named, if any.
    pub closed spec fn explicit(&self) -> Option<FileFormat> {
        self.format
    }

    /// The rank of the source.
    pub closed spec fn rank(&self) -> u8 {
        self.priority
    }

    /// A file of priority 10 whose format is inferred from its extension.
    pub fn new(path: &str) -> (file: ConfigFile)
        ensures
            file.location() == path@,
            file.explicit() is None,
            file.rank() == 10,
    {
        ConfigFile { path: path.to_string(), format: None, priority: 10 }
    }

    /// The same file, read in the given format whatever its extension.
    pub fn with_format(self, format: FileFormat) -> (file: ConfigFile)
        ensures
            file.location() == self.location(),
            file.explicit() == Some(format),
            file.rank() == self.rank(),
    {
        ConfigFile { path: self.path, format: Some(format), priority: self.priority }
    }

    /// The same file with another priority.
    pub fn with_priority(self, priority: u8) -> (file: ConfigFile)
        ensures
            file.location() == self.location(),
            file.explicit() == self.explicit(),
            file.rank() == priority,
    {
        ConfigFile { path: self.path, format: self.format, priority }
    }

    /// The path of the file.
    pub fn path(&self) -> (path: &str)
        ensures
            path@ == self.location(),
    {
        self.path.as_str()
    }

    /// The format that the caller named, if any.
    pub fn format(&self) -> (format: Option<FileFormat>)
        ensures
            format == self.explicit(),
    {
        self.format
    }

    /// The priority of the source.
    pub fn priority(&self) -> (priority: u8)
        ensures
            priority == self.rank(),
    {
        self.priority
    }

    /// The format in which the file is to be read: the one that the
    /// caller named, else the one that the extension of the path stands
    /// for.
    pub fn resolve(&self) -> (format: Result<FileFormat, ConfigError>)
        ensures
            resolved_from(self.location(), self.explicit(), format),
    {
        resolve_path(self.path.as_str(), self.format)
    }

    /// Loads the file: resolves its format, has `read` read it and parses
    /// what was read.
    pub fn load_with<R: Fn(&str) -> Result<String, ConfigError>>(&self, read: &R) -> (loaded: Result<
        ConfigNode,
        ConfigError,
    >)
        requires
            forall|path: &str| call_requires(*read, (path,)),
        ensures
            exists|format: Result<FileFormat, ConfigError>| #[trigger]
                resolved_from(self.location(), self.explicit(), format) && match format {
                    Err(error) => loaded matches Err(e) && e@ == error@,
                    Ok(f) => exists|path: &str, contents: Result<String, ConfigError>|
                        path@ == self.location() && #[trigger] call_ensures(*read, (path,), contents)
                            && parsed_as(contents, f, loaded),
                },
    {
        let path = self.path.as_str();
        let loaded = load_from_path(path, self.format, read);
        proof {
            let format = choose|format: Result<FileFormat, ConfigError>| #[trigger]
                resolved_from(path@, self.format, format) && match format {
                    Err(error) => loaded matches Err(e) && e@ == error@,
                    Ok(f) => exists|contents: Result<String, ConfigError>| #[trigger]
                        call_ensures(*read, (path,), contents) && parsed_as(contents, f, loaded),
                };
            assert(resolved_from(self.location(), self.explicit(), format));
            if format is Ok {
                let contents = choose|contents: Result<String, ConfigError>| #[trigger]
                    call_ensures(*read, (path,), contents) && parsed_as(contents, format->Ok_0, loaded);
                assert(call_ensures(*read, (path,), contents));
            }
        }
        loaded
    }
}

} // verus!
