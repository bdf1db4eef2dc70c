//! Where the files are kept: the configuration directory, the files in
//! it, and the configured place of the presets file.

use crate::error::{EnvError, Fault};
use crate::text::text_of;
use vstd::prelude::*;
use vstd::string::StringExecFns;

verus! {

/// What `Path::join` of std makes of two paths given as strings, on the
/// platform that the library is built for.
pub uninterp spec fn joined_path(base: Seq<char>, rest: Seq<char>) -> Seq<char>;

/// What `Path::is_absolute` of std says of a path given as a string, on
/// the platform that the library is built for.
pub uninterp spec fn absolute_path(path: Seq<char>) -> bool;

/// Calls `dirs::config_dir`, which asks the platform and the environment
/// for the user's configuration directory. The answer may differ from one
/// call to the next, so the contract claims nothing of it. A directory
/// whose path is not Unicode text is handed out as `None`.
#[verifier::external_body]
fn platform_config_dir() -> (r: Option<String>) {
    dirs::config_dir().and_then(|dir| dir.into_os_string().into_string().ok())
}

/// Calls `Path::join` of std on two paths given as strings. The contract
/// gives the result the name `joined_path` and claims nothing of what it
/// holds.
#[verifier::external_body]
fn join_path(base: &str, rest: &str) -> (r: String)
    ensures
        r@ == joined_path(base@, rest@),
{
    std::path::Path::new(base).join(rest).to_string_lossy().into_owned()
}

/// Calls `Path::is_absolute` of std on a path given as a string. The
/// contract gives the answer the name `absolute_path`.
#[verifier::external_body]
fn is_absolute_path(path: &str) -> (r: bool)
    ensures
        r == absolute_path(path@),
{
    std::path::Path::new(path).is_absolute()
}

/// The settings of the program: where the presets file is.
#[derive(Debug, PartialEq, Eq)]
pub struct AppConfig {
    pub presets_path: String,
}

/// An `AppConfig` with its path as a sequence of characters.
pub struct Settings {
    pub presets_path: Seq<char>,
}

impl View for AppConfig {
    type V = Settings;

    open spec fn view(&self) -> Settings {
        Settings { presets_path: self.presets_path@ }
    }
}

/// The program's own directory in the configuration directory `base`.
pub open spec fn config_dir_in(base: Seq<char>) -> Seq<char> {
    joined_path(base, "emanager"@)
}

/// The file `leaf` of the program's own directory in the configuration
/// directory `base`.
pub open spec fn file_path_in(base: Seq<char>, leaf: Seq<char>) -> Seq<char> {
    joined_path(config_dir_in(base), leaf)
}

/// The file `leaf` of the program's own directory, or the fault that
/// there is no configuration directory.
pub open spec fn file_in(base: Option<Seq<char>>, leaf: Seq<char>) -> Result<Seq<char>, Fault> {
    match base {
        Some(dir) => Ok(file_path_in(dir, leaf)),
        None => Err(Fault::ConfigDirNotFound),
    }
}

/// The path that `path` stands for when it is given in the directory
/// `cwd`: itself where it is absolute, else its place under `cwd`; a
/// fault where it is relative and there is no such directory.
pub open spec fn resolved(path: Seq<char>, absolute: bool, cwd: Option<Seq<char>>) -> Result<
    Seq<char>,
    Fault,
> {
    if absolute {
        Ok(path)
    } else {
        match cwd {
            Some(dir) => Ok(joined_path(dir, path)),
            None => Err(Fault::PathResolutionError(path)),
        }
    }
}

/// The settings in force: those that are stored, or else the presets file
/// `presets.json` in the program's own directory, which are then new and
/// have yet to be stored.
pub open spec fn settings_in_force(stored: Option<Settings>, base: Option<Seq<char>>) -> Result<
    (Settings, bool),
    Fault,
> {
    match stored {
        Some(settings) => Ok((settings, false)),
        None => match file_in(base, "presets.json"@) {
            Ok(path) => Ok((Settings { presets_path: path }, true)),
            Err(fault) => Err(fault),
        },
    }
}

/// What optional settings hold.
pub open spec fn settings_of(stored: Option<AppConfig>) -> Option<Settings> {
    match stored {
        Some(config) => Some(config@),
        None => None,
    }
}

/// The program's own directory in the configuration directory `base`;
/// `None` stands for a platform that names no such directory.
pub fn config_dir_under(base: Option<&str>) -> (r: Result<String, EnvError>)
    ensures
        match base {
            Some(dir) => r matches Ok(path) && path@ == config_dir_in(dir@),
            None => r matches Err(e) && e@ == Fault::ConfigDirNotFound,
        },
{
    match base {
        Some(dir) => Ok(join_path(dir, "emanager")),
        None => Err(EnvError::ConfigDirNotFound),
    }
}

/// The file `leaf` in the program's own directory in the configuration
/// directory `base`.
pub fn file_under(base: Option<&str>, leaf: &str) -> (r: Result<String, EnvError>)
    ensures
        match file_in(text_of(base), leaf@) {
            Ok(path) => r matches Ok(found) && found@ == path,
            Err(fault) => r matches Err(e) && e@ == fault,
        },
{
    match config_dir_under(base) {
        Ok(dir) => Ok(join_path(dir.as_str(), leaf)),
        Err(e) => Err(e),
    }
}

/// The settings in force, and whether they are new and have yet to be
/// stored: the stored ones, or else the default ones for the
/// configuration directory `base`.
pub fn config_under(stored: Option<AppConfig>, base: Option<&str>) -> (r: Result<
    (AppConfig, bool),
    EnvError,
>)
    ensures
        match settings_in_force(settings_of(stored), text_of(base)) {
            Ok((settings, fresh)) => r matches Ok(found) && found.0@ == settings && found.1
                == fresh,
            Err(fault) => r matches Err(e) && e@ == fault,
        },
{
    match stored {
        Some(config) => Ok((config, false)),
        None => match file_under(base, "presets.json") {
            Ok(path) => Ok((AppConfig { presets_path: path }, true)),
            Err(e) => Err(e),
        },
    }
}

/// The path in which to look for `path`, of which it is known whether it
/// is absolute, when it is given in the directory `cwd`; `None` stands for
/// a working directory that cannot be had.
pub fn resolve_path_as(path: &str, absolute: bool, cwd: Option<&str>) -> (r: Result<
    String,
    EnvError,
>)
    ensures
        match resolved(path@, absolute, text_of(cwd)) {
            Ok(full) => r matches Ok(found) && found@ == full,
            Err(fault) => r matches Err(e) && e@ == fault,
        },
{
    if absolute {
        Ok(String::from_str(path))
    } else {
        match cwd {
            Some(dir) => Ok(join_path(dir, path)),
            None => Err(EnvError::PathResolutionError { path: String::from_str(path) }),
        }
    }
}

/// The path in which to look for `path`, a path given by the user while
/// in the directory `cwd`; `None` stands for a working directory that
/// cannot be had.
pub fn resolve_presets_path(path: &str, cwd: Option<&str>) -> (r: Result<String, EnvError>)
    ensures
        match resolved(path@, absolute_path(path@), text_of(cwd)) {
            Ok(full) => r matches Ok(found) && found@ == full,
            Err(fault) => r matches Err(e) && e@ == fault,
        },
{
    resolve_path_as(path, is_absolute_path(path), cwd)
}

/// The program's own directory in the user's configuration directory, as
/// the platform names it at the time of the call.
pub fn get_config_dir() -> (r: Result<String, EnvError>)
    ensures
        match r {
            Ok(path) => exists|base: Seq<char>| path@ == config_dir_in(base),
            Err(e) => e@ == Fault::ConfigDirNotFound,
        },
{
    let base = platform_config_dir();
    match &base {
        Some(dir) => config_dir_under(Some(dir.as_str())),
        None => config_dir_under(None),
    }
}

/// The file `leaf` in the program's own directory, as the platform names
/// that directory at the time of the call.
fn platform_file(leaf: &str) -> (r: Result<String, EnvError>)
    ensures
        match r {
            Ok(path) => exists|base: Seq<char>| path@ == file_path_in(base, leaf@),
            Err(e) => e@ == Fault::ConfigDirNotFound,
        },
{
    let base = platform_config_dir();
    match &base {
        Some(dir) => {
            let r = file_under(Some(dir.as_str()), leaf);
            assert(r matches Ok(path) && path@ == file_path_in(dir@, leaf@));
            r
        },
        None => file_under(None, leaf),
    }
}

/// The path of the settings file `config.json`.
pub fn get_config_file_path() -> (r: Result<String, EnvError>)
    ensures
        match r {
            Ok(path) => exists|base: Seq<char>| path@ == file_path_in(base, "config.json"@),
            Err(e) => e@ == Fault::ConfigDirNotFound,
        },
{
    platform_file("config.json")
}

/// The path of the file `state`, which records the active preset.
pub fn get_state_file_path() -> (r: Result<String, EnvError>)
    ensures
        match r {
            Ok(path) => exists|base: Seq<char>| path@ == file_path_in(base, "state"@),
            Err(e) => e@ == Fault::ConfigDirNotFound,
        },
{
    platform_file("state")
}

/// The path of the presets file `presets.json` where none is configured.
pub fn get_default_presets_path() -> (r: Result<String, EnvError>)
    ensures
        match r {
            Ok(path) => exists|base: Seq<char>| path@ == file_path_in(base, "presets.json"@),
            Err(e) => e@ == Fault::ConfigDirNotFound,
        },
{
    platform_file("presets.json")
}

/// The settings in force, and whether they are new and have yet to be
/// stored. `stored` holds the settings that were read from the settings
/// file, `None` where there is no such file: the default settings are
/// then made for the configuration directory that the platform names at
/// the time of the call.
pub fn load_config(stored: Option<AppConfig>) -> (r: Result<(AppConfig, bool), EnvError>)
    ensures
        match stored {
            Some(config) => r matches Ok(found) && found.0@ == config@ && !found.1,
            None => match r {
                Ok(found) => found.1 && exists|base: Seq<char>|
                    found.0@.presets_path == file_path_in(base, "presets.json"@),
                Err(e) => e@ == Fault::ConfigDirNotFound,
            },
        },
{
    match stored {
        Some(config) => config_under(Some(config), None),
        None => {
            let base = platform_config_dir();
            match &base {
                Some(dir) => {
                    let r = config_under(None, Some(dir.as_str()));
                    assert(r matches Ok(found) && found.0@.presets_path == file_path_in(
                        dir@,
                        "presets.json"@,
                    ));
                    r
                },
                None => config_under(None, None),
            }
        },
    }
}

/// The path of the presets file: the one of the stored settings, or else
/// the default one.
pub fn get_presets_path(stored: Option<AppConfig>) -> (r: Result<String, EnvError>)
    ensures
        match stored {
            Some(config) => r matches Ok(path) && path@ == config@.presets_path,
            None => match r {
                Ok(path) => exists|base: Seq<char>| path@ == file_path_in(base, "presets.json"@),
                Err(e) => e@ == Fault::ConfigDirNotFound,
            },
        },
{
    match load_config(stored) {
        Ok(found) => Ok(found.0.presets_path),
        Err(e) => Err(e),
    }
}

} // verus!
