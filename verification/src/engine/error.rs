//! Why a step could not be taken.

use vstd::prelude::*;

use crate::context;
use crate::context::ContextError;
use crate::permission;
use crate::permission::PermissionError;
use crate::text::{quoted, quoted_of};

verus! {

/// What keeps the loop from going on.
#[derive(Debug, PartialEq, Eq)]
pub enum CoreError {
    /// The provider failed, with this message.
    Provider(String),
    Permission(PermissionError),
    Context(ContextError),
    /// No tool has this name.
    UnknownTool(String),
    Cancelled,
}

/// The message shown for an error.
pub open spec fn core_error_text(error: CoreError) -> Seq<char> {
    match error {
        CoreError::Provider(message) => message@,
        CoreError::Permission(error) => permission::error_text(error.deep_view()),
        CoreError::Context(error) => context::error_text(error),
        CoreError::UnknownTool(name) => "no tool named "@ + quoted_of(name@) + " is registered"@,
        CoreError::Cancelled => "turn cancelled"@,
    }
}

impl CoreError {
    /// The message shown for the error.
    pub fn to_string(&self) -> (r: String)
        ensures
            r@ == core_error_text(*self),
    {
        match self {
            CoreError::Provider(message) => message.clone(),
            CoreError::Permission(error) => error.to_string(),
            CoreError::Context(error) => error.to_string(),
            CoreError::UnknownTool(name) => {
                let mut r = "no tool named ".to_owned();
                r.push_str(&quoted(name));
                r.push_str(" is registered");
                r
            },
            CoreError::Cancelled => "turn cancelled".to_owned(),
        }
    }
}

} // verus!
