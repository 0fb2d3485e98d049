//! Context management: budgets, pruning and compaction.

use octane::context::budget::{Budget, ModelInfo, Pressure};
use octane::context::compact::{apply, keep_recent_tokens, plan, Summary, KEEP_RECENT_CEILING};
use octane::context::prune::{
    estimate_tokens, fits, protected_call_ids, prune, reclaimable_tokens, CLEARED,
};
use octane::context::{ContextError, PRUNE_MINIMUM_TOKENS};
use octane::protocol::{Message, Part, Role, ToolCall, ToolCallId, ToolResult};

fn model(context_window: usize, max_output: usize) -> ModelInfo {
    ModelInfo { context_window, max_output_tokens: max_output }
}

#[test]
fn thresholds_match_the_documented_formula() {
    let budget = Budget::for_model(&model(200_000, 64_000));
    // min(64_000, 20_000) reserved.
    assert_eq!(budget.effective_window(), 180_000);
    assert_eq!(budget.compact_threshold, 167_000);
    assert_eq!(budget.warn_threshold, 160_000);
}

#[test]
fn low_usage_is_comfortable() {
    let budget = Budget::for_model(&model(200_000, 64_000));
    assert_eq!(budget.pressure(10_000, 0), Pressure::Comfortable);
}

#[test]
fn warns_before_acting() {
    let budget = Budget::for_model(&model(200_000, 64_000));
    assert_eq!(budget.pressure(161_000, 0), Pressure::Warning);
}

#[test]
fn prefers_pruning_when_it_would_suffice() {
    let budget = Budget::for_model(&model(200_000, 64_000));
    // 168k used, 30k reclaimable → 138k, under the 160k warn line.
    assert_eq!(budget.pressure(168_000, 30_000), Pressure::ShouldPrune);
}

#[test]
fn compacts_when_there_is_too_little_to_reclaim() {
    let budget = Budget::for_model(&model(200_000, 64_000));
    // Only 5k reclaimable: below the minimum, so pruning is not worth the
    // cache invalidation and compaction is the only lever left.
    assert_eq!(budget.pressure(168_000, 5_000), Pressure::ShouldCompact);
    assert_eq!(budget.pressure(179_000, 0), Pressure::ShouldCompact);
}

#[test]
fn compacts_when_pruning_would_not_clear_the_band() {
    // Requires a band wider than PRUNE_MINIMUM_TOKENS, which the default
    // thresholds do not produce — see the note in `pressure`.
    let budget = Budget::new(500_000, 300_000, 250_000);
    // 30k reclaimable clears the minimum but leaves us at 370k, still deep
    // inside the compaction band.
    assert_eq!(budget.pressure(400_000, 30_000), Pressure::ShouldCompact);
    // 150k reclaimable would drop us to 250k, out of the band.
    assert_eq!(budget.pressure(400_000, 150_000), Pressure::ShouldPrune);
}

#[test]
fn over_the_window_is_exceeded() {
    let budget = Budget::for_model(&model(200_000, 64_000));
    assert_eq!(budget.pressure(180_000, 100_000), Pressure::Exceeded);
}

#[test]
fn small_windows_do_not_underflow() {
    // A 4k model: saturating_sub must not wrap into a huge threshold.
    let budget = Budget::for_model(&model(4_096, 1_024));
    assert_eq!(budget.compact_threshold, 0);
    assert_eq!(budget.pressure(1, 0), Pressure::ShouldCompact);
}

fn text(role: Role, body: &str) -> Message {
    Message::text(role, body)
}

fn pair(name: &str, output: &str) -> Vec<Message> {
    let id = ToolCallId::new();
    vec![
        Message::new(
            Role::Assistant,
            vec![Part::ToolCall(ToolCall {
                id: id.clone(),
                name: name.into(),
                input: "{}".into(),
            })],
        ),
        Message::new(
            Role::User,
            vec![Part::ToolResult(ToolResult {
                call_id: id,
                output: output.into(),
                metadata: None,
                is_error: false,
            })],
        ),
    ]
}

fn summary() -> Summary {
    Summary { text: "they discussed the parser".into(), ..Summary::default() }
}

#[test]
fn the_cached_prefix_is_never_summarized() {
    // Summarizing it would invalidate the prefix on every later turn, which
    // costs more than the compaction saves.
    let mut messages = vec![
        text(Role::System, "instructions"),
        text(Role::Developer, "sandbox"),
    ];
    for index in 0..40 {
        messages.push(text(Role::User, &format!("message {index} {}", "x".repeat(500))));
    }

    let plan = plan(&messages, 2, 8_000).unwrap();
    assert_eq!(plan.start, 2, "the span begins after the preserved prefix");

    let compacted = apply(&messages, &plan, &summary());
    assert_eq!(compacted[0], messages[0]);
    assert_eq!(compacted[1], messages[1]);
}

#[test]
fn a_tool_call_is_never_separated_from_its_result() {
    // A call whose result was summarized away, or the reverse, is rejected
    // by every provider.
    let mut messages = vec![text(Role::System, "instructions")];
    for _ in 0..30 {
        messages.extend(pair("read", &"x".repeat(2_000)));
    }

    let plan = plan(&messages, 1, 8_000).unwrap();
    let compacted = apply(&messages, &plan, &summary());

    let calls: Vec<_> = compacted
        .iter()
        .flat_map(|m| &m.parts)
        .filter_map(|p| match p {
            Part::ToolCall(call) => Some(call.id.clone()),
            _ => None,
        })
        .collect();
    for id in calls {
        assert!(
            compacted.iter().flat_map(|m| &m.parts).any(
                |p| matches!(p, Part::ToolResult(r) if r.call_id == id)
            ),
            "every surviving call keeps its result"
        );
    }
}

#[test]
fn the_summary_is_a_developer_message_not_a_system_one() {
    // The Anthropic codec hoists every System message into the top-level
    // `system` field wherever it appears, which would move the summary into
    // the cached prefix it exists to stay out of.
    let messages: Vec<Message> =
        (0..40).map(|i| text(Role::User, &format!("{i} {}", "x".repeat(500)))).collect();

    let plan = plan(&messages, 0, 8_000).unwrap();
    let compacted = apply(&messages, &plan, &summary());

    let inserted = &compacted[plan.start];
    assert_eq!(inserted.role, Role::Developer);
    assert!(matches!(inserted.parts.first(), Some(Part::Synthetic { .. })));
}

#[test]
fn a_small_window_can_still_compact() {
    // A fixed keep-window larger than the whole context would make
    // compaction impossible for exactly the local models most likely to
    // hit it.
    assert!(keep_recent_tokens(4_000) < 4_000, "a 4k model keeps less than its window");
    assert_eq!(keep_recent_tokens(1_000_000), KEEP_RECENT_CEILING, "and it is capped");

    let messages: Vec<Message> =
        (0..40).map(|i| text(Role::User, &format!("{i} {}", "x".repeat(200)))).collect();
    assert!(plan(&messages, 0, 4_000).is_ok(), "a 4k model can compact");
}

#[test]
fn a_history_that_is_all_prefix_and_recency_is_irreducible() {
    let messages = vec![text(Role::System, "instructions"), text(Role::User, "hello")];
    assert!(matches!(plan(&messages, 1, 200_000), Err(ContextError::Irreducible)));
}

#[test]
fn compacting_removes_the_span_and_leaves_the_tail() {
    let messages: Vec<Message> =
        (0..40).map(|i| text(Role::User, &format!("{i} {}", "x".repeat(500)))).collect();

    let plan = plan(&messages, 0, 8_000).unwrap();
    let compacted = apply(&messages, &plan, &summary());

    assert_eq!(compacted.len(), messages.len() - (plan.end - plan.start) + 1);
    assert_eq!(compacted.last(), messages.last(), "the newest message survives verbatim");
    assert!(
        estimate_tokens(&compacted)
            < estimate_tokens(&messages),
        "compaction must shrink the history"
    );
}

fn tool_exchange(name: &str, output_len: usize) -> Vec<Message> {
    let id = ToolCallId::new();
    vec![
        Message::new(
            Role::Assistant,
            vec![Part::ToolCall(ToolCall {
                id: id.clone(),
                name: name.into(),
                input: "{}".into(),
            })],
        ),
        Message::new(
            Role::User,
            vec![Part::ToolResult(ToolResult {
                call_id: id,
                output: "x".repeat(output_len),
                metadata: None,
                is_error: false,
            })],
        ),
    ]
}

fn tool_exchange_with(name: &str, output: &str) -> Vec<Message> {
    let id = ToolCallId::new();
    vec![
        Message::new(
            Role::Assistant,
            vec![Part::ToolCall(ToolCall { id: id.clone(), name: name.into(), input: "{}".into() })],
        ),
        Message::new(
            Role::User,
            vec![Part::ToolResult(ToolResult {
                call_id: id,
                output: output.to_string(),
                metadata: None,
                is_error: false,
            })],
        ),
    ]
}

fn long_history(exchanges: usize, name: &str, output_len: usize) -> Vec<Message> {
    (0..exchanges).flat_map(|_| tool_exchange(name, output_len)).collect()
}

#[test]
fn does_nothing_below_the_minimum() {
    let history = long_history(2, "read", 100);
    let outcome = prune(history.clone(), 1_000, PRUNE_MINIMUM_TOKENS);
    assert_eq!(outcome.tokens_reclaimed, 0);
    // Untouched, so the cache is preserved.
    assert_eq!(outcome.messages, history);
}

#[test]
fn clears_old_output_past_the_protection_window() {
    // 40 exchanges x 40k chars ≈ 400k tokens of tool output.
    let history = long_history(40, "read", 40_000);
    let outcome = prune(history, PRUNE_PROTECT_TOKENS_TEST, 1_000);

    assert!(outcome.outputs_cleared > 0);
    assert!(outcome.tokens_reclaimed > 1_000);
    assert!(outcome.messages.iter().any(|m| m
        .parts
        .iter()
        .any(|p| matches!(p, Part::ToolResult(r) if r.output == CLEARED))));
}

const PRUNE_PROTECT_TOKENS_TEST: usize = 10_000;

#[test]
fn recent_output_is_never_cleared() {
    let history = long_history(40, "read", 40_000);
    let outcome = prune(history, PRUNE_PROTECT_TOKENS_TEST, 1_000);

    // The last exchange is well inside the protection window.
    let last = outcome.messages.last().unwrap();
    let intact = last
        .parts
        .iter()
        .any(|p| matches!(p, Part::ToolResult(r) if r.output != CLEARED));
    assert!(intact, "the most recent tool output must survive");
}

#[test]
fn skill_output_survives_pruning() {
    let mut history = long_history(20, "skill", 40_000);
    history.extend(long_history(20, "read", 40_000));

    let outcome = prune(history, PRUNE_PROTECT_TOKENS_TEST, 1_000);

    // No skill result was cleared, however old.
    let skill_ids = protected_call_ids(&outcome.messages);
    for message in &outcome.messages {
        for part in &message.parts {
            if let Part::ToolResult(result) = part {
                if skill_ids.contains(&result.call_id) {
                    assert_ne!(result.output, CLEARED, "skill output must be protected");
                }
            }
        }
    }
}

#[test]
fn tool_calls_are_never_orphaned() {
    let history = long_history(40, "read", 40_000);
    let call_count = history
        .iter()
        .flat_map(|m| &m.parts)
        .filter(|p| matches!(p, Part::ToolCall(_)))
        .count();

    let outcome = prune(history, PRUNE_PROTECT_TOKENS_TEST, 1_000);

    let calls_after = outcome
        .messages
        .iter()
        .flat_map(|m| &m.parts)
        .filter(|p| matches!(p, Part::ToolCall(_)))
        .count();
    let results_after = outcome
        .messages
        .iter()
        .flat_map(|m| &m.parts)
        .filter(|p| matches!(p, Part::ToolResult(_)))
        .count();

    assert_eq!(calls_after, call_count);
    assert_eq!(results_after, call_count, "every call must still have a result");
}

#[test]
fn reclaimable_is_side_effect_free() {
    let history = long_history(40, "read", 40_000);
    let before = history.clone();
    let _ = reclaimable_tokens(&history, PRUNE_PROTECT_TOKENS_TEST);
    assert_eq!(history, before);
}

#[test]
fn empty_history_is_handled() {
    let outcome = prune(Vec::new(), 40_000, 20_000);
    assert!(outcome.messages.is_empty());
    assert_eq!(outcome.tokens_reclaimed, 0);
    assert_eq!(reclaimable_tokens(&[], 40_000), 0);
}

#[test]
fn pruning_is_idempotent() {
    let history = long_history(40, "read", 40_000);
    let first = prune(history, PRUNE_PROTECT_TOKENS_TEST, 1_000);
    let second = prune(first.messages.clone(), PRUNE_PROTECT_TOKENS_TEST, 1_000);
    // Nothing left to reclaim, so the second pass is a no-op.
    assert_eq!(second.tokens_reclaimed, 0);
    assert_eq!(second.messages, first.messages);
}

#[test]
fn a_cleared_placeholder_is_not_counted_as_reclaimable() {
    // `prune` skips placeholders, so counting them here promises tokens it
    // cannot deliver. `Budget::pressure` then keeps answering ShouldPrune
    // after pruning has stopped doing anything, and the caller's prune
    // branch loops without progress.
    fn result_then_tail(output: &str) -> Vec<Message> {
        vec![
            Message::new(
                Role::User,
                vec![Part::ToolResult(ToolResult {
                    call_id: ToolCallId::new(),
                    output: output.to_string(),
                    metadata: None,
                    is_error: false,
                })],
            ),
            // A trailing message, or the protection cutoff leaves nothing
            // ahead of it to measure.
            Message::text(Role::Assistant, "done"),
        ]
    }

    let live = result_then_tail(&"x".repeat(200_000));
    let cleared = result_then_tail(CLEARED);

    assert!(reclaimable_tokens(&live, 0) > 0, "a real output is reclaimable");
    assert_eq!(reclaimable_tokens(&cleared, 0), 0, "a placeholder is not");
}

#[test]
fn the_estimate_never_promises_more_than_the_prune_delivers() {
    // These two walk the same messages under the same exemptions, and the
    // caller uses the first to decide whether to call the second. If the
    // estimate is the larger, `Budget::pressure` keeps answering
    // ShouldPrune while `prune` clears nothing, and the turn loop spins
    // without taking a step.
    let mut history = Vec::new();
    for (name, output) in [
        ("read", "a".repeat(80_000)),   // prunable
        ("skill", "b".repeat(80_000)),  // protected by tool name
        ("grep", CLEARED.to_string()),  // already pruned
        ("read", String::new()),        // empty
        ("todo_read", "c".repeat(40_000)),
    ] {
        history.extend(tool_exchange_with(name, &output));
    }
    history.push(Message::text(Role::Assistant, "tail"));

    let estimate = reclaimable_tokens(&history, 0);
    let delivered = prune(history, 0, 0).tokens_reclaimed;

    assert_eq!(estimate, delivered, "the estimate and the prune must agree");
    assert!(delivered > 0, "the fixture must actually prune something");
}

#[test]
fn the_keep_window_is_a_quarter_within_its_bounds() {
    assert_eq!(keep_recent_tokens(0), 1);
    assert_eq!(keep_recent_tokens(7), 1);
    assert_eq!(keep_recent_tokens(8_003), 2_000);
    assert_eq!(keep_recent_tokens(usize::MAX), 20_000);
}

#[test]
fn an_estimate_counts_bytes_and_rounds_up() {
    assert_eq!(estimate_tokens(&[Message::text(Role::User, "h\u{e9}llo")]), 2);
    let image = Message::new(
        Role::User,
        vec![Part::Image { media_type: "image/png".into(), data: "x".repeat(9_000) }],
    );
    assert!(fits(&[image.clone()]));
    assert_eq!(estimate_tokens(&[image]), 250);
}

#[test]
fn only_the_three_pressing_states_need_action() {
    assert!(Pressure::ShouldPrune.needs_action());
    assert!(Pressure::ShouldCompact.needs_action());
    assert!(Pressure::Exceeded.needs_action());
    assert!(!Pressure::Warning.needs_action());
    assert!(!Pressure::Comfortable.needs_action());
}

#[test]
fn a_context_error_says_what_failed() {
    assert_eq!(
        ContextError::CircuitOpen { attempts: 3 }.to_string(),
        "compaction failed 3 times; giving up"
    );
    assert_eq!(
        ContextError::Irreducible.to_string(),
        "history cannot be reduced further without orphaning a tool call"
    );
}

#[test]
fn a_span_that_would_split_a_pair_ends_before_the_call() {
    let mut messages = vec![text(Role::User, &"a".repeat(400))];
    messages.extend(pair("read", &"b".repeat(400)));
    messages.push(text(Role::User, &"c".repeat(200)));
    // The newest message alone holds the 50 tokens to keep, and nothing is split.
    let chosen = plan(&messages, 0, 200).unwrap();
    assert_eq!((chosen.start, chosen.end), (0, 3));
    // Keeping 51 tokens would cut between the call and its result.
    let pulled_back = plan(&messages, 0, 204).unwrap();
    assert_eq!((pulled_back.start, pulled_back.end), (0, 1));
}

#[test]
fn the_newest_message_is_never_summarized() {
    // One token is kept of a window of four, and the message is one token.
    let messages = vec![Message::text(Role::User, "aaaa")];
    assert!(matches!(plan(&messages, 0, 4), Err(ContextError::Irreducible)));

    let messages = vec![
        Message::text(Role::User, "first"),
        Message::text(Role::Assistant, "second"),
        Message::text(Role::User, &"x".repeat(4_000)),
    ];
    let span = plan(&messages, 0, 400).unwrap();
    assert_eq!((span.start, span.end), (0, 2));
    let kept = apply(&messages, &span, &Summary::default());
    assert_eq!(kept.last(), messages.last());
}
