//! What running a tool comes to.

use vstd::prelude::*;

use crate::text::text_of;

verus! {

/// Why a tool did not run, or failed.
#[derive(Debug, PartialEq, Eq)]
pub enum ToolError {
    /// Refused, by a rule or by the user.
    Denied(String),
    Cancelled,
    /// Something the model can correct.
    Recoverable(String),
    /// The harness is broken; no other call would fare better.
    Broken(String),
}

/// What a [`ToolError`] says.
pub enum ToolErrorModel {
    Denied(Seq<char>),
    Cancelled,
    Recoverable(Seq<char>),
    Broken(Seq<char>),
}

impl DeepView for ToolError {
    type V = ToolErrorModel;

    open spec fn deep_view(&self) -> ToolErrorModel {
        match *self {
            ToolError::Denied(resource) => ToolErrorModel::Denied(resource@),
            ToolError::Cancelled => ToolErrorModel::Cancelled,
            ToolError::Recoverable(message) => ToolErrorModel::Recoverable(message@),
            ToolError::Broken(message) => ToolErrorModel::Broken(message@),
        }
    }
}

impl ToolError {
    /// Whether the model is told. A refusal is not: told of it, the model looks for
    /// another way to do the same.
    pub fn is_reportable_to_model(&self) -> (r: bool)
        ensures
            r == (*self is Recoverable),
    {
        match self {
            ToolError::Recoverable(_) => true,
            _ => false,
        }
    }

    /// The error as text.
    pub fn to_string(&self) -> (r: String)
        ensures
            r@ == match self.deep_view() {
                ToolErrorModel::Denied(resource) => "denied: "@ + resource,
                ToolErrorModel::Cancelled => "cancelled"@,
                ToolErrorModel::Recoverable(message) => message,
                ToolErrorModel::Broken(message) => message,
            },
    {
        match self {
            ToolError::Denied(resource) => {
                let mut r = "denied: ".to_owned();
                r.push_str(resource);
                r
            },
            ToolError::Cancelled => "cancelled".to_owned(),
            ToolError::Recoverable(message) => message.clone(),
            ToolError::Broken(message) => message.clone(),
        }
    }
}

/// What a tool did.
#[derive(Debug, PartialEq, Eq)]
pub struct ToolOutcome {
    /// One line about what was done.
    pub title: String,
    /// What the model sees.
    pub output: String,
    /// What a client sees, as JSON text.
    pub metadata: Option<String>,
}

/// What a [`ToolOutcome`] is.
pub struct ToolOutcomeModel {
    pub title: Seq<char>,
    pub output: Seq<char>,
    pub metadata: Option<Seq<char>>,
}

impl DeepView for ToolOutcome {
    type V = ToolOutcomeModel;

    open spec fn deep_view(&self) -> ToolOutcomeModel {
        ToolOutcomeModel {
            title: self.title@,
            output: self.output@,
            metadata: text_of(self.metadata),
        }
    }
}

impl ToolOutcome {
    pub fn new(title: &str, output: &str) -> (r: Self)
        ensures
            r.deep_view() == (ToolOutcomeModel { title: title@, output: output@, metadata: None }),
    {
        ToolOutcome { title: title.to_owned(), output: output.to_owned(), metadata: None }
    }
}

} // verus!
