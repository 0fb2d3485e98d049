//! The policy engine: should this be allowed to happen?
//!
//! Every sensitive operation is named as a [`Resource`], `action(target)`, and
//! evaluated against three rule lists ordered by severity. Policy is consent;
//! containment is somebody else's job.

use vstd::prelude::*;

use crate::text::{quoted, quoted_of};


pub mod laws;
pub mod matcher;
pub mod mode;
pub mod pattern_laws;
pub mod policy;
pub mod resource;
pub mod verdict_laws;

pub use matcher::RuleMatcher;
pub use mode::PermissionMode;
pub use policy::{Decision, Policy, PolicyBuilder, Reason, Rule, Scope, Verdict};
pub use resource::{Action, Resource};

verus! {

/// Why a rule or an action could not be read.
#[derive(Debug, PartialEq, Eq)]
pub enum PermissionError {
    /// The rule is not of the form `action(target)`.
    MalformedRule { rule: String, reason: String },
    /// The action has no such name.
    UnknownAction(String),
}

/// What a [`PermissionError`] says.
pub enum PermissionErrorModel {
    MalformedRule { rule: Seq<char>, reason: Seq<char> },
    UnknownAction(Seq<char>),
}

impl DeepView for PermissionError {
    type V = PermissionErrorModel;

    open spec fn deep_view(&self) -> PermissionErrorModel {
        match *self {
            PermissionError::MalformedRule { rule, reason } => PermissionErrorModel::MalformedRule {
                rule: rule@,
                reason: reason@,
            },
            PermissionError::UnknownAction(name) => PermissionErrorModel::UnknownAction(name@),
        }
    }
}

/// The message shown for an error.
pub open spec fn error_text(error: PermissionErrorModel) -> Seq<char> {
    match error {
        PermissionErrorModel::MalformedRule { rule, reason } => "malformed permission rule "@
            + quoted_of(rule) + ": "@ + reason,
        PermissionErrorModel::UnknownAction(name) => "unknown permission action "@ + quoted_of(name),
    }
}

impl PermissionError {
    /// The message shown for the error.
    pub fn to_string(&self) -> (r: String)
        ensures
            r@ == error_text(self.deep_view()),
    {
        match self {
            PermissionError::MalformedRule { rule, reason } => {
                let mut r = "malformed permission rule ".to_owned();
                r.push_str(&quoted(rule));
                r.push_str(": ");
                r.push_str(reason);
                r
            },
            PermissionError::UnknownAction(name) => {
                let mut r = "unknown permission action ".to_owned();
                r.push_str(&quoted(name));
                r
            },
        }
    }
}

} // verus!
