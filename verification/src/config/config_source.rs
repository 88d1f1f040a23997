//! Where a configuration layer comes from.

use crate::text::str_is;
use vstd::prelude::*;
use vstd::string::StringExecFns;

verus! {

/// The format of a configuration file.
#[derive(Debug, Copy, Clone, PartialEq, Eq, Structural)]
pub enum ConfigFileFormat {
    Toml,
    Text,
}

impl ConfigFileFormat {
    /// The file extension that marks the format.
    pub open spec fn suffix(self) -> Seq<char> {
        match self {
            ConfigFileFormat::Toml => "toml"@,
            ConfigFileFormat::Text => "txt"@,
        }
    }

    /// The file extension that marks the format.
    pub fn extension(self) -> (r: &'static str)
        ensures
            r@ == self.suffix(),
    {
        match self {
            ConfigFileFormat::Toml => "toml",
            ConfigFileFormat::Text => "txt",
        }
    }
}

/// A configuration file: where it lies and how it is written.
#[derive(Debug, PartialEq, Eq)]
pub struct ConfigFileDescription {
    pub location: String,
    pub format: ConfigFileFormat,
}

/// Why a location does not describe a configuration file.
#[derive(Debug, Clone, PartialEq, Eq)]
pub enum ConfigFileError {
    /// The file has an extension that stands for no known format.
    UnknownExtension(String),
    /// The file has no extension.
    MissingExtension,
}

impl ConfigFileError {
    /// The text of the message that describes this error.
    pub open spec fn message(self) -> Seq<char> {
        match self {
            ConfigFileError::UnknownExtension(e) => "File extension "@ + e@ + " not known"@,
            ConfigFileError::MissingExtension =>
                "Config file needs either 'toml' or 'txt' as file format"@,
        }
    }

    /// A human-readable description of the error.
    pub fn to_string(&self) -> (r: String)
        ensures
            r@ == self.message(),
    {
        match self {
            ConfigFileError::UnknownExtension(e) => {
                let mut out = String::from_str("File extension ");
                out.append(e.as_str());
                out.append(" not known");
                out
            },
            ConfigFileError::MissingExtension => String::from_str(
                "Config file needs either 'toml' or 'txt' as file format",
            ),
        }
    }
}

/// The extension of the file that `location` names, as
/// `std::path::Path::extension` finds it. Nothing is claimed of the result:
/// how a location divides into components depends on the platform.
#[verifier::external_body]
fn file_extension(location: &str) -> (r: Option<String>) {
    match std::path::Path::new(location).extension() {
        Some(e) => e.to_str().map(str::to_owned),
        None => None,
    }
}

impl ConfigFileDescription {
    /// The format that a file with the given extension is written in: the
    /// error says whether the extension is unknown or missing.
    pub open spec fn format_of(extension: Option<Seq<char>>) -> Option<ConfigFileFormat> {
        match extension {
            Some(e) => if e == "txt"@ {
                Some(ConfigFileFormat::Text)
            } else if e == "toml"@ {
                Some(ConfigFileFormat::Toml)
            } else {
                None
            },
            None => None,
        }
    }

    /// Describes the file at `location`, written in `format`.
    pub fn new(location: String, format: ConfigFileFormat) -> (r: ConfigFileDescription)
        ensures
            r.location == location,
            r.format == format,
    {
        ConfigFileDescription { location, format }
    }

    /// Describes the file at `location`, whose name has the given
    /// extension: `txt` for the text format, `toml` for TOML.
    pub fn with_extension(location: &str, extension: Option<&str>) -> (r: Result<
        ConfigFileDescription,
        ConfigFileError,
    >)
        ensures
            match r {
                Ok(d) => d.location@ == location@ && extension is Some
                    && ConfigFileDescription::format_of(Some(extension->0@)) == Some(d.format),
                Err(ConfigFileError::UnknownExtension(e)) => extension is Some && e@
                    == extension->0@ && ConfigFileDescription::format_of(Some(e@)) is None,
                Err(ConfigFileError::MissingExtension) => extension is None,
            },
    {
        match extension {
            Some(e) => {
                if str_is(e, "txt") {
                    Ok(ConfigFileDescription::new(location.to_owned(), ConfigFileFormat::Text))
                } else if str_is(e, "toml") {
                    proof {
                        reveal_strlit("txt");
                        reveal_strlit("toml");
                    }
                    Ok(ConfigFileDescription::new(location.to_owned(), ConfigFileFormat::Toml))
                } else {
                    Err(ConfigFileError::UnknownExtension(e.to_owned()))
                }
            },
            None => Err(ConfigFileError::MissingExtension),
        }
    }

    /// Describes the file at the location `s`, taking the format from the
    /// extension of the file's name. The location is kept as it is given;
    /// the outcome is that of `with_extension` for the extension found.
    pub fn from_str(s: &str) -> (r: Result<ConfigFileDescription, ConfigFileError>)
        ensures
            match r {
                Ok(d) => d.location@ == s@,
                Err(ConfigFileError::UnknownExtension(e)) => ConfigFileDescription::format_of(
                    Some(e@),
                ) is None,
                Err(ConfigFileError::MissingExtension) => true,
            },
    {
        match file_extension(s) {
            Some(e) => ConfigFileDescription::with_extension(s, Some(e.as_str())),
            None => ConfigFileDescription::with_extension(s, None),
        }
    }

    /// The location, for display.
    pub fn to_string(&self) -> (r: String)
        ensures
            r@ == self.location@,
    {
        self.location.clone()
    }
}

impl Clone for ConfigFileDescription {
    fn clone(&self) -> (r: ConfigFileDescription)
        ensures
            r == *self,
    {
        ConfigFileDescription { location: self.location.clone(), format: self.format }
    }
}

/// Where a configuration layer, and each path entry of it, comes from.
#[derive(Debug, PartialEq, Eq)]
pub enum ConfigSource {
    /// The `PATH` variable of the environment.
    PathVar,
    /// The defaults that are built in.
    Included,
    /// The system-wide file.
    System(ConfigFileFormat),
    /// The file in the user's home directory.
    Home(ConfigFileFormat),
    /// A file that was named explicitly.
    Config(ConfigFileDescription),
}

/// The home directory is needed to find a file and is not known.
#[derive(Debug, Copy, Clone, PartialEq, Eq, Structural)]
pub struct HomeUnknown;

impl ConfigSource {
    /// The location of the file that the source stands for, if it stands
    /// for one: fixed for the system-wide file, below `home` for the user's.
    pub open spec fn location(self, home: Seq<char>) -> Option<Seq<char>> {
        match self {
            ConfigSource::System(format) => Some("/etc/pathfix."@ + format.suffix()),
            ConfigSource::Home(format) => Some(home + "/.pathfix."@ + format.suffix()),
            ConfigSource::Config(d) => Some(d.location@),
            _ => None,
        }
    }

    /// The format of the file that the source stands for, if it stands for
    /// one.
    pub open spec fn format(self) -> Option<ConfigFileFormat> {
        match self {
            ConfigSource::System(format) => Some(format),
            ConfigSource::Home(format) => Some(format),
            ConfigSource::Config(d) => Some(d.format),
            _ => None,
        }
    }

    /// Gets the file description, if the configuration source describes a
    /// file on the file system. `home` is the user's home directory, where
    /// it is known; only the file in the home directory needs it.
    pub fn file_description(&self, home: Option<&str>) -> (r: Result<
        Option<ConfigFileDescription>,
        HomeUnknown,
    >)
        ensures
            match r {
                Ok(Some(d)) => (home is Some || !(self is Home)) && Some(d.location@)
                    == self.location(if home is Some { home->0@ } else { Seq::empty() })
                    && Some(d.format) == self.format(),
                Ok(None) => self.format() is None,
                Err(_) => self is Home && home is None,
            },
    {
        match self {
            ConfigSource::System(format) => {
                let mut location = String::from_str("/etc/pathfix.");
                location.append(format.extension());
                Ok(Some(ConfigFileDescription::new(location, *format)))
            },
            ConfigSource::Home(format) => match home {
                Some(h) => {
                    let mut location = String::from_str(h);
                    location.append("/.pathfix.");
                    location.append(format.extension());
                    Ok(Some(ConfigFileDescription::new(location, *format)))
                },
                None => Err(HomeUnknown),
            },
            ConfigSource::Config(description) => Ok(Some(description.clone())),
            _ => Ok(None),
        }
    }

    /// The text that describes the source.
    pub open spec fn description(self) -> Seq<char> {
        match self {
            ConfigSource::PathVar => "PATH variable"@,
            ConfigSource::Included => "included in binary"@,
            ConfigSource::System(_) => "from system dir"@,
            ConfigSource::Home(_) => "from home dir"@,
            ConfigSource::Config(d) => "config: "@ + d.location@,
        }
    }

    /// A human-readable description of the source.
    pub fn to_string(&self) -> (r: String)
        ensures
            r@ == self.description(),
    {
        match self {
            ConfigSource::PathVar => String::from_str("PATH variable"),
            ConfigSource::Included => String::from_str("included in binary"),
            ConfigSource::System(_) => String::from_str("from system dir"),
            ConfigSource::Home(_) => String::from_str("from home dir"),
            ConfigSource::Config(d) => {
                let mut out = String::from_str("config: ");
                out.append(d.location.as_str());
                out
            },
        }
    }
}

impl Clone for ConfigSource {
    fn clone(&self) -> (r: ConfigSource)
        ensures
            r == *self,
    {
        match self {
            ConfigSource::PathVar => ConfigSource::PathVar,
            ConfigSource::Included => ConfigSource::Included,
            ConfigSource::System(format) => ConfigSource::System(*format),
            ConfigSource::Home(format) => ConfigSource::Home(*format),
            ConfigSource::Config(d) => ConfigSource::Config(d.clone()),
        }
    }
}

} // verus!
