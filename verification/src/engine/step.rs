//! Stop conditions.
//!
//! The model decides when the task is done. Everything here but completion is a
//! rail that decides when to stop letting it try.

use vstd::prelude::*;

use crate::text::{decimal, decimal_of};

verus! {

/// Default step cap.
pub const DEFAULT_STEP_LIMIT: u32 = 1_000;

/// Why a turn ended.
#[derive(Debug, PartialEq, Eq)]
pub enum StopReason {
    /// The model produced a message instead of a tool call.
    Completed,
    /// Step cap hit.
    StepLimit { limit: u32 },
    /// The same interaction kept recurring.
    LoopDetected { signature: String, repeats: usize },
    /// The user refused a tool call.
    Denied { resource: String },
    /// The user interrupted.
    Interrupted,
    /// The model was cut off by its own token limit.
    OutputTruncated,
    Failed { message: String },
}

/// What the loop does next.
#[derive(Debug, PartialEq, Eq)]
pub enum StepDecision {
    Continue,
    Stop(StopReason),
}

/// What a [`StopReason`] says.
pub enum StopModel {
    Completed,
    StepLimit { limit: u32 },
    LoopDetected { signature: Seq<char>, repeats: usize },
    Denied { resource: Seq<char> },
    Interrupted,
    OutputTruncated,
    Failed { message: Seq<char> },
}

impl DeepView for StopReason {
    type V = StopModel;

    open spec fn deep_view(&self) -> StopModel {
        match *self {
            StopReason::Completed => StopModel::Completed,
            StopReason::StepLimit { limit } => StopModel::StepLimit { limit },
            StopReason::LoopDetected { signature, repeats } => StopModel::LoopDetected {
                signature: signature@,
                repeats,
            },
            StopReason::Denied { resource } => StopModel::Denied { resource: resource@ },
            StopReason::Interrupted => StopModel::Interrupted,
            StopReason::OutputTruncated => StopModel::OutputTruncated,
            StopReason::Failed { message } => StopModel::Failed { message: message@ },
        }
    }
}

impl Clone for StopReason {
    fn clone(&self) -> (r: Self)
        ensures
            r == *self,
    {
        match self {
            StopReason::Completed => StopReason::Completed,
            StopReason::StepLimit { limit } => StopReason::StepLimit { limit: *limit },
            StopReason::LoopDetected { signature, repeats } => StopReason::LoopDetected {
                signature: signature.clone(),
                repeats: *repeats,
            },
            StopReason::Denied { resource } => StopReason::Denied { resource: resource.clone() },
            StopReason::Interrupted => StopReason::Interrupted,
            StopReason::OutputTruncated => StopReason::OutputTruncated,
            StopReason::Failed { message } => StopReason::Failed { message: message.clone() },
        }
    }
}

/// One line about why a turn ended.
pub open spec fn summary_of(reason: StopModel) -> Seq<char> {
    match reason {
        StopModel::Completed => "done"@,
        StopModel::StepLimit { limit } => "stopped after "@ + decimal_of(limit as nat)
            + " steps"@,
        StopModel::LoopDetected { repeats, .. } => "stopped: same action repeated "@ + decimal_of(
            repeats as nat,
        ) + " times without progress"@,
        StopModel::Denied { resource } => "stopped: you denied "@ + resource,
        StopModel::Interrupted => "interrupted"@,
        StopModel::OutputTruncated => "stopped: response hit the output limit"@,
        StopModel::Failed { message } => "failed: "@ + message,
    }
}

impl StopReason {
    /// Whether the turn produced a usable result.
    pub fn is_success(&self) -> (r: bool)
        ensures
            r == (*self is Completed),
    {
        match self {
            StopReason::Completed => true,
            _ => false,
        }
    }

    /// One line for the screen.
    pub fn summary(&self) -> (r: String)
        ensures
            r@ == summary_of(self.deep_view()),
    {
        match self {
            StopReason::Completed => "done".to_owned(),
            StopReason::StepLimit { limit } => {
                let mut r = "stopped after ".to_owned();
                r.push_str(&decimal(*limit as u64));
                r.push_str(" steps");
                r
            },
            StopReason::LoopDetected { signature: _, repeats } => {
                let mut r = "stopped: same action repeated ".to_owned();
                r.push_str(&decimal(*repeats as u64));
                r.push_str(" times without progress");
                r
            },
            StopReason::Denied { resource } => {
                let mut r = "stopped: you denied ".to_owned();
                r.push_str(resource);
                r
            },
            StopReason::Interrupted => "interrupted".to_owned(),
            StopReason::OutputTruncated => "stopped: response hit the output limit".to_owned(),
            StopReason::Failed { message } => {
                let mut r = "failed: ".to_owned();
                r.push_str(message);
                r
            },
        }
    }
}

} // verus!
