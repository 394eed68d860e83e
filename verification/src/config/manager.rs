//! Decisions of configuration management: the format of a file and the parser it takes.
//!
//! Reading, writing and backing up files happen in the terminal front end.
use vstd::prelude::*;
use crate::config::{ConfigFormat, FormatModel};
use crate::text::lowercase;
use crate::utils::concat;
use crate::utils::fs::{file_extension, path_extension};

verus! {

/// Errors met while parsing a configuration, each with its message.
#[derive(Debug, Clone, PartialEq, Eq)]
pub enum ParseError {
    /// JSON parsing failed
    InvalidJson(String),
    /// YAML parsing failed
    InvalidYaml(String),
    /// TOML parsing failed
    InvalidToml(String),
    /// Unsupported configuration format
    UnsupportedFormat(String),
    /// IO error during parsing
    IoError(String),
}

/// The message of a parse error.
pub open spec fn parse_error_message(e: ParseError) -> Seq<char> {
    match e {
        ParseError::InvalidJson(m) => "Invalid JSON: "@ + m@,
        ParseError::InvalidYaml(m) => "Invalid YAML: "@ + m@,
        ParseError::InvalidToml(m) => "Invalid TOML: "@ + m@,
        ParseError::UnsupportedFormat(m) => "Unsupported format: "@ + m@,
        ParseError::IoError(m) => "IO error: "@ + m@,
    }
}

impl ParseError {
    /// The message shown for the error.
    pub fn message(&self) -> (r: String)
        ensures
            r@ == parse_error_message(*self),
    {
        match self {
            ParseError::InvalidJson(m) => concat("Invalid JSON: ", m.as_str()),
            ParseError::InvalidYaml(m) => concat("Invalid YAML: ", m.as_str()),
            ParseError::InvalidToml(m) => concat("Invalid TOML: ", m.as_str()),
            ParseError::UnsupportedFormat(m) => concat("Unsupported format: ", m.as_str()),
            ParseError::IoError(m) => concat("IO error: ", m.as_str()),
        }
    }
}

/// The extension of a path, `json` when it has none.
pub open spec fn extension_or_json(path: Seq<char>) -> Seq<char> {
    match file_extension(path) {
        Some(e) => e,
        None => "json"@,
    }
}

/// The format of a configuration file by its extension, ignoring case: `json` and `jsonc`
/// are JSON, `yaml` and `yml` YAML, `toml` TOML, `ini` INI; any other extension names a
/// custom format. A file without extension is taken as JSON.
pub open spec fn format_for_path(path: Seq<char>) -> FormatModel {
    let e = extension_or_json(path);
    let l = lowercase(e);
    if l == "json"@ || l == "jsonc"@ {
        FormatModel::Json
    } else if l == "yaml"@ || l == "yml"@ {
        FormatModel::Yaml
    } else if l == "toml"@ {
        FormatModel::Toml
    } else if l == "ini"@ {
        FormatModel::Ini
    } else {
        FormatModel::Custom(e)
    }
}

/// The parser a file is read with, by its exact extension: `json` (also for a file without
/// extension) or `yaml`; any other extension is unsupported.
pub open spec fn parser_for_path(path: Seq<char>) -> Result<FormatModel, Seq<char>> {
    let e = extension_or_json(path);
    if e == "json"@ {
        Ok(FormatModel::Json)
    } else if e == "yaml"@ {
        Ok(FormatModel::Yaml)
    } else {
        Err(e)
    }
}

/// The contents of a new configuration file: an empty JSON object for JSON, a comment line
/// otherwise.
pub open spec fn new_file_contents(f: ConfigFormat) -> Seq<char> {
    match f {
        ConfigFormat::Json => "{\n  \n}\n"@,
        _ => "# Configuration file\n\n"@,
    }
}

/// Decides formats and parsers for configuration files.
#[derive(Debug, Clone, Copy)]
pub struct ConfigManager;

impl ConfigManager {
    /// A configuration manager.
    pub fn new() -> (m: Self) {
        ConfigManager
    }

    /// The extension of the path, `json` when it has none.
    fn extension_of(path: &str) -> (e: String)
        ensures
            e@ == extension_or_json(path@),
    {
        match path_extension(path) {
            Some(e) => e,
            None => String::from_str("json"),
        }
    }

    /// The format of a configuration file, by its extension.
    pub fn detect_format(&self, file_path: &str) -> (f: ConfigFormat)
        ensures
            f@ == format_for_path(file_path@),
    {
        let e = Self::extension_of(file_path);
        let l = crate::text::to_lowercase(e.as_str());
        let t = l.as_str();
        if crate::text::str_equal(t, "json") || crate::text::str_equal(t, "jsonc") {
            ConfigFormat::Json
        } else if crate::text::str_equal(t, "yaml") || crate::text::str_equal(t, "yml") {
            ConfigFormat::Yaml
        } else if crate::text::str_equal(t, "toml") {
            ConfigFormat::Toml
        } else if crate::text::str_equal(t, "ini") {
            ConfigFormat::Ini
        } else {
            ConfigFormat::Custom(e)
        }
    }

    /// The parser a file is read with, or the unsupported extension.
    pub fn get_parser_for_file(&self, file_path: &str) -> (r: Result<ConfigFormat, ParseError>)
        ensures
            match r {
                Ok(f) => parser_for_path(file_path@) == Ok::<FormatModel, Seq<char>>(f@),
                Err(ParseError::UnsupportedFormat(e)) => parser_for_path(file_path@) == Err::<
                    FormatModel,
                    Seq<char>,
                >(e@),
                Err(_) => false,
            },
    {
        let e = Self::extension_of(file_path);
        if crate::text::str_equal(e.as_str(), "json") {
            Ok(ConfigFormat::Json)
        } else if crate::text::str_equal(e.as_str(), "yaml") {
            Ok(ConfigFormat::Yaml)
        } else {
            Err(ParseError::UnsupportedFormat(e))
        }
    }

    /// The contents of a new configuration file of the format.
    pub fn default_content(&self, format: &ConfigFormat) -> (s: &'static str)
        ensures
            s@ == new_file_contents(*format),
    {
        match format {
            ConfigFormat::Json => "{\n  \n}\n",
            _ => "# Configuration file\n\n",
        }
    }
}

} // verus!
