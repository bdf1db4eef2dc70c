//! Named sets of environment-variable assignments ("presets") and the
//! shell commands that switch a session from one preset to another.
//!
//! The library keeps no files and prints nothing. It is handed what the
//! files hold and hands back what is to be printed and stored:
//!
//! - `table` and `text`: a map from strings to values that is kept in the
//!   order of its keys, and that order;
//! - `store`: presets, the store of all of them, and the commands that
//!   add variables to a preset and remove a preset;
//! - `switch`: the commands that clear the active preset and switch to
//!   another, as `unset` and `export` lines for the shell;
//! - `report`: the list of the presets and the variables of one of them;
//! - `codec`: the stored forms of the store and of the active preset;
//! - `config`: where the files are;
//! - `error`: the ways in which a command can fail.

pub mod codec;
pub mod config;
pub mod error;
pub mod report;
pub mod store;
pub mod switch;
pub mod table;
pub mod text;
