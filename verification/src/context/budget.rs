//! Token budgeting: how close to the edge the conversation is, as a decision.

use vstd::prelude::*;

use crate::context::PRUNE_MINIMUM_TOKENS;

verus! {

/// How much room is left, as a decision rather than a number.
#[derive(Debug, Clone, Copy, PartialEq, Eq, Structural)]
pub enum Pressure {
    /// Plenty of room.
    Comfortable,
    /// Approaching the limit; warn, change nothing.
    Warning,
    /// Prune tool outputs before the next step.
    ShouldPrune,
    /// Pruning will not be enough; summarize.
    ShouldCompact,
    /// Over the limit. The next call will fail.
    Exceeded,
}

impl Pressure {
    pub fn needs_action(self) -> (r: bool)
        ensures
            r == (self is ShouldPrune || self is ShouldCompact || self is Exceeded),
    {
        match self {
            Pressure::ShouldPrune | Pressure::ShouldCompact | Pressure::Exceeded => true,
            Pressure::Comfortable | Pressure::Warning => false,
        }
    }
}

/// What of a model the budget depends on.
#[derive(Debug, Clone, Copy, PartialEq, Eq, Structural)]
pub struct ModelInfo {
    /// Tokens the model can hold.
    pub context_window: usize,
    /// Tokens the model can answer with.
    pub max_output_tokens: usize,
}

/// `a - b`, or nothing if `b` is more.
pub open spec fn less(a: int, b: int) -> int {
    if a >= b {
        a - b
    } else {
        0
    }
}

/// The window minus the room reserved for an answer, at most 20,000 tokens.
pub open spec fn effective_window_of(info: ModelInfo) -> int {
    less(
        info.context_window as int,
        if info.max_output_tokens < 20_000 {
            info.max_output_tokens as int
        } else {
            20_000
        },
    )
}

impl ModelInfo {
    /// The window minus the room reserved for an answer.
    pub fn effective_context_window(&self) -> (r: usize)
        ensures
            r == effective_window_of(*self),
    {
        let reserved: usize = if self.max_output_tokens < 20_000 {
            self.max_output_tokens
        } else {
            20_000
        };
        self.context_window.saturating_sub(reserved)
    }
}

/// The thresholds of a context window.
#[derive(Debug, Clone, Copy)]
pub struct Budget {
    /// Window minus reserved output space.
    pub effective_window: usize,
    pub compact_threshold: usize,
    pub warn_threshold: usize,
}

/// The decision about `used` tokens of which pruning could recover `reclaimable`.
pub open spec fn pressure_of(b: Budget, used: int, reclaimable: int) -> Pressure {
    if used >= b.effective_window {
        Pressure::Exceeded
    } else if used >= b.compact_threshold {
        if reclaimable >= PRUNE_MINIMUM_TOKENS && less(used, reclaimable) < b.compact_threshold {
            Pressure::ShouldPrune
        } else {
            Pressure::ShouldCompact
        }
    } else if used >= b.warn_threshold {
        Pressure::Warning
    } else {
        Pressure::Comfortable
    }
}

impl Budget {
    /// Derives thresholds from a model's limits. Compaction starts 13,000 tokens
    /// short of the window, since it makes a model call that has to fit too.
    pub fn for_model(info: &ModelInfo) -> (r: Self)
        ensures
            r.effective_window == effective_window_of(*info),
            r.compact_threshold == less(effective_window_of(*info), 13_000),
            r.warn_threshold == less(effective_window_of(*info), 20_000),
    {
        let effective_window: usize = info.effective_context_window();
        Budget {
            effective_window,
            compact_threshold: effective_window.saturating_sub(13_000),
            warn_threshold: effective_window.saturating_sub(20_000),
        }
    }

    /// Explicit thresholds, for models with unusual shapes.
    pub fn new(effective_window: usize, compact_threshold: usize, warn_threshold: usize) -> (r: Self)
        ensures
            r == (Budget { effective_window, compact_threshold, warn_threshold }),
    {
        Budget { effective_window, compact_threshold, warn_threshold }
    }

    pub fn effective_window(&self) -> (r: usize)
        ensures
            r == self.effective_window,
    {
        self.effective_window
    }

    /// Classifies a token count. Pruning is preferred where it alone would leave
    /// the compaction band: it is free, and loses no reasoning.
    pub fn pressure(&self, used: usize, reclaimable: usize) -> (r: Pressure)
        ensures
            r == pressure_of(*self, used as int, reclaimable as int),
    {
        if used >= self.effective_window {
            return Pressure::Exceeded;
        }
        if used >= self.compact_threshold {
            let would_be: usize = used.saturating_sub(reclaimable);
            if reclaimable >= PRUNE_MINIMUM_TOKENS && would_be < self.compact_threshold {
                return Pressure::ShouldPrune;
            }
            return Pressure::ShouldCompact;
        }
        if used >= self.warn_threshold {
            return Pressure::Warning;
        }
        Pressure::Comfortable
    }
}

} // verus!
