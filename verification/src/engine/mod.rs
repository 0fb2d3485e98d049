//! The agent loop: what runs, when it stops, and what is sent.

pub mod agent;
pub mod error;
pub mod events;
pub mod laws;
pub mod loop_guard;
pub mod model_source;
pub mod prompt;
pub mod step;
pub mod summarizer;
pub mod task;
pub mod tool;
pub mod transcript;
pub mod turn;

pub use agent::{Agent, AgentKind};
pub use error::CoreError;
pub use events::EventSink;
pub use loop_guard::LoopGuard;
pub use model_source::ModelStepSource;
pub use prompt::{mode_switch_notice, PromptAssembler, BASE_INSTRUCTIONS};
pub use step::{StepDecision, StopReason, DEFAULT_STEP_LIMIT};
pub use summarizer::ModelSummarizer;
pub use task::TaskTool;
pub use tool::{ToolError, ToolOutcome};
pub use turn::{Action, Input, StepOutput, Turn, TurnOutcome, TurnRunner};
