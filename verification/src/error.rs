//! The ways in which a command can fail.

use vstd::prelude::*;
use vstd::string::StringExecFns;

verus! {

/// Why a command was given up.
#[derive(Debug, PartialEq, Eq)]
pub enum EnvError {
    /// No preset of this name is in the store.
    PresetNotFound { name: String },
    /// The text is no `KEY=VALUE` assignment with a key.
    InvalidPairFormat { pair: String },
    /// The stored presets are not one object of objects of strings.
    StoreCorrupt,
    /// The presets could not be put into their stored form.
    StoreWriteError,
    /// The platform names no directory for configuration files.
    ConfigDirNotFound,
    /// The path is relative and there is no directory to resolve it in.
    PathResolutionError { path: String },
}

/// An `EnvError` with its texts as sequences of characters.
pub enum Fault {
    PresetNotFound(Seq<char>),
    InvalidPairFormat(Seq<char>),
    StoreCorrupt,
    StoreWriteError,
    ConfigDirNotFound,
    PathResolutionError(Seq<char>),
}

impl View for EnvError {
    type V = Fault;

    open spec fn view(&self) -> Fault {
        match self {
            EnvError::PresetNotFound { name } => Fault::PresetNotFound(name@),
            EnvError::InvalidPairFormat { pair } => Fault::InvalidPairFormat(pair@),
            EnvError::StoreCorrupt => Fault::StoreCorrupt,
            EnvError::StoreWriteError => Fault::StoreWriteError,
            EnvError::ConfigDirNotFound => Fault::ConfigDirNotFound,
            EnvError::PathResolutionError { path } => Fault::PathResolutionError(path@),
        }
    }
}

/// The line that tells the user of a fault.
pub open spec fn fault_text(fault: Fault) -> Seq<char> {
    match fault {
        Fault::PresetNotFound(name) => "Preset '"@ + name + "' not found."@,
        Fault::InvalidPairFormat(pair) => "Invalid key-value pair format: '"@ + pair
            + "'. Use KEY=VALUE."@,
        Fault::StoreCorrupt => "Failed to parse presets file. It might be malformed JSON."@,
        Fault::StoreWriteError => "Failed to serialize presets."@,
        Fault::ConfigDirNotFound => "Could not find config directory"@,
        Fault::PathResolutionError(path) => "Failed to find absolute path for "@ + path,
    }
}

impl EnvError {
    /// The line that tells the user what failed.
    pub fn message(&self) -> (r: String)
        ensures
            r@ == fault_text(self@),
    {
        match self {
            EnvError::PresetNotFound { name } => {
                let mut line = String::from_str("Preset '");
                line.append(name.as_str());
                line.append("' not found.");
                line
            },
            EnvError::InvalidPairFormat { pair } => {
                let mut line = String::from_str("Invalid key-value pair format: '");
                line.append(pair.as_str());
                line.append("'. Use KEY=VALUE.");
                line
            },
            EnvError::StoreCorrupt => String::from_str(
                "Failed to parse presets file. It might be malformed JSON.",
            ),
            EnvError::StoreWriteError => String::from_str("Failed to serialize presets."),
            EnvError::ConfigDirNotFound => String::from_str("Could not find config directory"),
            EnvError::PathResolutionError { path } => {
                let mut line = String::from_str("Failed to find absolute path for ");
                line.append(path.as_str());
                line
            },
        }
    }
}

} // verus!
