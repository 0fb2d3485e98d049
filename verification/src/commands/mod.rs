//! Slash commands: canned prompts, found in files.
//!
//! A command expands to a prompt, never to code. `$ARGUMENTS` and `$1`, `$2`, ...
//! stand for what the user typed, and a shell substitution is only collected here:
//! nothing runs before the policy was asked.

use vstd::prelude::*;

use crate::text::{decimal, decimal_of};

pub mod command;
pub mod discovery;
pub mod expand;
pub mod laws;
pub mod registry;

pub use command::{Command, CommandFrontmatter};
pub use discovery::discover;
pub use expand::{expand, Expansion, ShellRequest};
pub use registry::{Builtin, Entry, Kind, Registry};

verus! {

/// Directory name searched under the project's and the user's configuration.
pub const COMMANDS_DIR: &'static str = "commands";

/// What is wrong with a command, or with a use of it.
#[derive(Debug, PartialEq, Eq)]
pub enum CommandError {
    /// A file could not be read.
    Io { path: String, source: String },
    /// The head of a file is no valid frontmatter.
    InvalidFrontmatter { path: String, source: String },
    /// There is no such command.
    Unknown(String),
    /// A file has the name of a built-in command.
    ShadowsBuiltin { name: String, path: String },
    /// Fewer arguments were given than the template refers to.
    MissingArguments { name: String, expected: usize, actual: usize },
}

/// The message shown for an error.
pub open spec fn error_text(error: CommandError) -> Seq<char> {
    match error {
        CommandError::Io { path, source } => "reading "@ + path@ + ": "@ + source@,
        CommandError::InvalidFrontmatter { path, source } => path@ + ": invalid frontmatter: "@
            + source@,
        CommandError::Unknown(name) => "unknown command /"@ + name@,
        CommandError::ShadowsBuiltin { name, path } => path@ + ": /"@ + name@
            + " is a built-in command and cannot be redefined"@,
        CommandError::MissingArguments { name, expected, actual } => "/"@ + name@
            + " requires at least "@ + decimal_of(expected as nat) + " argument(s), got "@
            + decimal_of(actual as nat),
    }
}

impl CommandError {
    /// The message shown for the error.
    pub fn to_string(&self) -> (r: String)
        ensures
            r@ == error_text(*self),
    {
        match self {
            CommandError::Io { path, source } => {
                let mut r = "reading ".to_owned();
                r.push_str(path);
                r.push_str(": ");
                r.push_str(source);
                r
            },
            CommandError::InvalidFrontmatter { path, source } => {
                let mut r = path.clone();
                r.push_str(": invalid frontmatter: ");
                r.push_str(source);
                r
            },
            CommandError::Unknown(name) => {
                let mut r = "unknown command /".to_owned();
                r.push_str(name);
                r
            },
            CommandError::ShadowsBuiltin { name, path } => {
                let mut r = path.clone();
                r.push_str(": /");
                r.push_str(name);
                r.push_str(" is a built-in command and cannot be redefined");
                r
            },
            CommandError::MissingArguments { name, expected, actual } => {
                let mut r = "/".to_owned();
                r.push_str(name);
                r.push_str(" requires at least ");
                r.push_str(&decimal(*expected as u64));
                r.push_str(" argument(s), got ");
                r.push_str(&decimal(*actual as u64));
                r
            },
        }
    }
}

} // verus!
