//! Compaction: replace an old span of the conversation with a summary.
//!
//! The cached prefix and the recent turns are never touched, and the span ends
//! where no call in it is left without its result.

use vstd::prelude::*;

use crate::context::prune::{
    estimate_message, lemma_tail_bound, lemma_weight_take, tail_tokens, weight,
};
use crate::context::ContextError;
use crate::protocol::event::Usage;
use crate::protocol::id::ToolCallId;
use crate::protocol::message::{copy_of, Message, MessageModel, Part, PartModel, Role};

verus! {

/// Ceiling on the recent tokens held out of any summary.
pub const KEEP_RECENT_CEILING: usize = 20_000;

/// What a summarizer produced, and what it cost.
#[derive(Debug)]
pub struct Summary {
    pub text: String,
    pub usage: Usage,
}

impl Default for Summary {
    fn default() -> (r: Self)
        ensures
            r.text@ == Seq::<char>::empty(),
            r.usage == (Usage {
                input_tokens: 0,
                output_tokens: 0,
                cached_input_tokens: 0,
                reasoning_tokens: 0,
            }),
    {
        Summary { text: String::new(), usage: Usage::default() }
    }
}

/// Which messages to replace.
#[derive(Debug, Clone, Copy, PartialEq, Eq, Structural)]
pub struct Plan {
    /// First message of the span, immediately after the preserved prefix.
    pub start: usize,
    /// One past the last message of the span.
    pub end: usize,
}

/// The recent tokens held out of any summary: a quarter of the window, but at
/// least one and at most the ceiling.
pub open spec fn keep_of(effective_window: int) -> int {
    let quarter = effective_window / 4;
    if quarter < 1 {
        1
    } else if quarter > KEEP_RECENT_CEILING {
        KEEP_RECENT_CEILING as int
    } else {
        quarter
    }
}

/// Recent tokens held out of any summary.
pub fn keep_recent_tokens(effective_window: usize) -> (r: usize)
    ensures
        r == keep_of(effective_window as int),
{
    let quarter: usize = effective_window / 4;
    if quarter < 1 {
        1
    } else if quarter > KEEP_RECENT_CEILING {
        KEEP_RECENT_CEILING
    } else {
        quarter
    }
}

/// The last position before `n` from which the tail holds `keep` tokens; `start`
/// if there is none behind it.
pub open spec fn recent_cut(messages: Seq<MessageModel>, start: int, n: int, keep: int) -> int
    decreases n - start,
{
    if n <= start {
        n
    } else if tail_tokens(messages, n - 1) >= keep {
        n - 1
    } else {
        recent_cut(messages, start, n - 1, keep)
    }
}

/// Whether a part is the call with this id.
pub open spec fn is_call(part: PartModel, id: Seq<char>) -> bool {
    part matches PartModel::ToolCall(call) && call.id == id
}

/// Whether a part is a result of the call with this id.
pub open spec fn is_result(part: PartModel, id: Seq<char>) -> bool {
    part matches PartModel::ToolResult(result) && result.call_id == id
}

/// Whether message `i` holds the call with this id.
pub open spec fn calls_at(messages: Seq<MessageModel>, i: int, id: Seq<char>) -> bool {
    exists|j: int|
        0 <= j < messages[i].parts.len() && is_call(#[trigger] messages[i].parts[j], id)
}

/// Whether message `i` holds a result of the call with this id.
pub open spec fn answers_at(messages: Seq<MessageModel>, i: int, id: Seq<char>) -> bool {
    exists|j: int|
        0 <= j < messages[i].parts.len() && is_result(#[trigger] messages[i].parts[j], id)
}

/// Whether one of messages `from..to` holds a result of the call with this id.
pub open spec fn answered(messages: Seq<MessageModel>, from: int, to: int, id: Seq<char>) -> bool {
    exists|i: int| from <= i < to && #[trigger] answers_at(messages, i, id)
}

/// Whether every call in messages `from..to` has its result among them.
pub open spec fn resolved(messages: Seq<MessageModel>, from: int, to: int) -> bool {
    forall|i: int, id: Seq<char>|
        from <= i < to && #[trigger] calls_at(messages, i, id) ==> answered(messages, from, to, id)
}

/// The last position from `cut` down to `start` that leaves no call unresolved.
pub open spec fn safe_cut(messages: Seq<MessageModel>, start: int, cut: int) -> int
    decreases cut - start,
{
    if cut <= start {
        start
    } else if resolved(messages, start, cut) {
        cut
    } else {
        safe_cut(messages, start, cut - 1)
    }
}

/// Where the preserved prefix ends.
pub open spec fn prefix_end(messages: Seq<MessageModel>, preserved_prefix: int) -> int {
    if preserved_prefix < messages.len() {
        preserved_prefix
    } else {
        messages.len() as int
    }
}

/// Where the span to summarize ends.
pub open spec fn span_end(
    messages: Seq<MessageModel>,
    preserved_prefix: int,
    effective_window: int,
) -> int {
    let start = prefix_end(messages, preserved_prefix);
    safe_cut(
        messages,
        start,
        recent_cut(messages, start, messages.len() as int, keep_of(effective_window)),
    )
}

/// The cut is between the prefix and the last message, and the tail from it holds
/// what is to be kept, unless nothing is left between the prefix and it.
pub proof fn lemma_recent_cut(messages: Seq<MessageModel>, start: int, n: int, keep: int)
    requires
        0 <= start <= n <= messages.len(),
    ensures
        start <= recent_cut(messages, start, n, keep) <= n,
        start < n ==> recent_cut(messages, start, n, keep) < n,
        start < recent_cut(messages, start, n, keep) ==> tail_tokens(
            messages,
            recent_cut(messages, start, n, keep),
        ) >= keep,
        forall|j: int|
            recent_cut(messages, start, n, keep) < j < n ==> #[trigger] tail_tokens(messages, j)
                < keep,
    decreases n - start,
{
    if n > start && tail_tokens(messages, n - 1) < keep {
        lemma_recent_cut(messages, start, n - 1, keep);
    }
}

/// The tail from an earlier position holds no less.
pub proof fn lemma_tail_grows(messages: Seq<MessageModel>, i: int, j: int)
    requires
        0 <= i <= j <= messages.len(),
    ensures
        tail_tokens(messages, j) <= tail_tokens(messages, i),
    decreases j - i,
{
    if i < j {
        lemma_tail_grows(messages, i + 1, j);
    }
}

/// A safe cut is between the prefix and the cut, and leaves every call resolved.
pub proof fn lemma_safe_cut(messages: Seq<MessageModel>, start: int, cut: int)
    requires
        0 <= start <= cut <= messages.len(),
    ensures
        start <= safe_cut(messages, start, cut) <= cut,
        resolved(messages, start, safe_cut(messages, start, cut)),
    decreases cut - start,
{
    if cut > start && !resolved(messages, start, cut) {
        lemma_safe_cut(messages, start, cut - 1);
    }
}

fn result_in(message: &Message, id: &ToolCallId) -> (r: bool)
    ensures
        r == answers_at(seq![message.deep_view()], 0, id.deep_view()),
{
    let ghost one = seq![message.deep_view()];
    let mut j: usize = 0;
    while j < message.parts.len()
        invariant
            j <= message.parts@.len(),
            one == seq![message.deep_view()],
            forall|k: int| 0 <= k < j ==> !is_result(#[trigger] one[0].parts[k], id.deep_view()),
        decreases message.parts@.len() - j,
    {
        assert(one[0].parts[j as int] == message.parts@[j as int].deep_view());
        match &message.parts[j] {
            Part::ToolResult(result) => {
                if result.call_id.is(id) {
                    return true;
                }
            },
            _ => {},
        }
        j += 1;
    }
    false
}

fn is_answered(messages: &[Message], from: usize, to: usize, id: &ToolCallId) -> (r: bool)
    requires
        from <= to <= messages@.len(),
    ensures
        r == answered(messages.deep_view(), from as int, to as int, id.deep_view()),
{
    let ghost all = messages.deep_view();
    let mut i: usize = from;
    while i < to
        invariant
            from <= i <= to <= messages@.len(),
            all == messages.deep_view(),
            forall|k: int| from <= k < i ==> !#[trigger] answers_at(all, k, id.deep_view()),
        decreases to - i,
    {
        let found = result_in(&messages[i], id);
        proof {
            let one = seq![messages@[i as int].deep_view()];
            assert(all[i as int] == one[0]);
            if found {
                let j = choose|j: int|
                    0 <= j < one[0].parts.len() && is_result(
                        #[trigger] one[0].parts[j],
                        id.deep_view(),
                    );
                assert(is_result(all[i as int].parts[j], id.deep_view()));
                assert(answers_at(all, i as int, id.deep_view()));
            } else if answers_at(all, i as int, id.deep_view()) {
                let j = choose|j: int|
                    0 <= j < all[i as int].parts.len() && is_result(
                        #[trigger] all[i as int].parts[j],
                        id.deep_view(),
                    );
                assert(is_result(one[0].parts[j], id.deep_view()));
            }
        }
        if found {
            return true;
        }
        i += 1;
    }
    false
}

fn is_resolved(messages: &[Message], from: usize, to: usize) -> (r: bool)
    requires
        from <= to <= messages@.len(),
    ensures
        r == resolved(messages.deep_view(), from as int, to as int),
{
    let ghost all = messages.deep_view();
    let mut i: usize = from;
    while i < to
        invariant
            from <= i <= to <= messages@.len(),
            all == messages.deep_view(),
            forall|k: int, id: Seq<char>|
                from <= k < i && #[trigger] calls_at(all, k, id) ==> answered(
                    all,
                    from as int,
                    to as int,
                    id,
                ),
        decreases to - i,
    {
        let message = &messages[i];
        assert(all[i as int] == message.deep_view());
        let mut j: usize = 0;
        while j < message.parts.len()
            invariant
                from <= i < to <= messages@.len(),
                j <= message.parts@.len(),
                all == messages.deep_view(),
                all[i as int] == message.deep_view(),
                forall|k: int, id: Seq<char>|
                    0 <= k < j && is_call(#[trigger] all[i as int].parts[k], id)
                        ==> #[trigger] answered(all, from as int, to as int, id),
            decreases message.parts@.len() - j,
        {
            assert(all[i as int].parts[j as int] == message.parts@[j as int].deep_view());
            match &message.parts[j] {
                Part::ToolCall(call) => {
                    if !is_answered(messages, from, to, &call.id) {
                        assert(is_call(all[i as int].parts[j as int], call.id.deep_view()));
                        assert(calls_at(all, i as int, call.id.deep_view()));
                        return false;
                    }
                },
                _ => {},
            }
            j += 1;
        }
        assert forall|k: int, id: Seq<char>|
            from <= k < i + 1 && #[trigger] calls_at(all, k, id) implies answered(
            all,
            from as int,
            to as int,
            id,
        ) by {
            if k == i {
                let j = choose|j: int|
                    0 <= j < all[k].parts.len() && is_call(#[trigger] all[k].parts[j], id);
                assert(is_call(all[i as int].parts[j], id));
            }
        }
        i += 1;
    }
    true
}

/// Pulls the cut back so that the span never ends between a call and its result.
pub fn orphan_safe_cut(messages: &[Message], start: usize, cut: usize) -> (r: usize)
    requires
        start <= cut <= messages@.len(),
    ensures
        r == safe_cut(messages.deep_view(), start as int, cut as int),
{
    let mut at: usize = cut;
    while at > start
        invariant
            start <= at <= messages@.len(),
            safe_cut(messages.deep_view(), start as int, cut as int) == safe_cut(
                messages.deep_view(),
                start as int,
                at as int,
            ),
        decreases at,
    {
        if is_resolved(messages, start, at) {
            return at;
        }
        at -= 1;
    }
    start
}

/// Chooses the span to summarize: after the first `preserved_prefix` messages, and
/// before the recent ones.
pub fn plan(messages: &[Message], preserved_prefix: usize, effective_window: usize) -> (r: Result<
    Plan,
    ContextError,
>)
    requires
        weight(messages.deep_view()) <= usize::MAX,
    ensures
        ({
            let all = messages.deep_view();
            let start = prefix_end(all, preserved_prefix as int);
            let end = span_end(all, preserved_prefix as int, effective_window as int);
            match r {
                Ok(plan) => plan.start == start && plan.end == end && start < end <= all.len(),
                Err(error) => error is Irreducible && end <= start,
            }
        }),
{
    let ghost all = messages.deep_view();
    let keep = keep_recent_tokens(effective_window);
    let start: usize = if preserved_prefix < messages.len() {
        preserved_prefix
    } else {
        messages.len()
    };
    let mut accumulated: usize = 0;
    let mut cut: usize = messages.len();
    let ghost wanted = recent_cut(all, start as int, all.len() as int, keep as int);
    while cut > start
        invariant_except_break
            start <= cut <= messages@.len(),
            all == messages.deep_view(),
            weight(all) <= usize::MAX,
            accumulated == tail_tokens(all, cut as int),
            wanted == recent_cut(all, start as int, cut as int, keep as int),
        ensures
            start <= cut <= messages@.len(),
            cut == wanted,
        decreases cut,
    {
        let next: usize = cut - 1;
        proof {
            lemma_weight_take(all, next as int);
            lemma_weight_take(all, next + 1);
            lemma_tail_bound(all, next as int);
        }
        assert(all[next as int] == messages@[next as int].deep_view());
        accumulated = accumulated + estimate_message(&messages[next]);
        cut = next;
        if accumulated >= keep {
            break;
        }
    }
    proof {
        lemma_safe_cut(all, start as int, cut as int);
    }
    let end = orphan_safe_cut(messages, start, cut);
    if end <= start {
        return Err(ContextError::Irreducible);
    }
    Ok(Plan { start, end })
}

/// The text put in place of a summarized span.
pub open spec fn summary_text(text: Seq<char>) -> Seq<char> {
    "Summary of earlier conversation, which was removed to reclaim context:\n\n"@ + text
}

/// The message put in place of a summarized span.
pub open spec fn summary_message(text: Seq<char>) -> MessageModel {
    MessageModel {
        role: Role::Developer,
        parts: seq![PartModel::Synthetic { text: summary_text(text) }],
    }
}

/// The compacted history: what stands before and after the span, with the summary
/// between them.
pub open spec fn compacted(
    messages: Seq<MessageModel>,
    plan: Plan,
    text: Seq<char>,
) -> Seq<MessageModel> {
    messages.take(plan.start as int) + seq![summary_message(text)] + messages.skip(plan.end as int)
}

/// Builds the compacted history; the input is left as it is, so that the caller
/// can measure the result and discard it. The summary is no system message: a
/// codec may hoist those into the cached prefix.
pub fn apply(messages: &[Message], plan: &Plan, summary: &Summary) -> (r: Vec<Message>)
    requires
        plan.start <= plan.end <= messages@.len(),
    ensures
        r.deep_view() == compacted(messages.deep_view(), *plan, summary.text@),
{
    let ghost all = messages.deep_view();
    let mut out = copy_of(messages, 0, plan.start);
    let ghost head = out.deep_view();
    let mut text = "Summary of earlier conversation, which was removed to reclaim context:\n\n".to_owned();
    text.push_str(&summary.text);
    let mut parts: Vec<Part> = Vec::new();
    parts.push(Part::Synthetic { text });
    assert(parts.deep_view() =~= seq![PartModel::Synthetic { text: summary_text(summary.text@) }]);
    let inserted = Message { role: Role::Developer, parts };
    out.push(inserted);
    assert(out.deep_view() =~= head + seq![summary_message(summary.text@)]);
    let ghost before = out.deep_view();
    let mut rest = copy_of(messages, plan.end, messages.len());
    let ghost tail = rest.deep_view();
    out.append(&mut rest);
    assert(out.deep_view() =~= before + tail);
    assert(head =~= all.take(plan.start as int));
    assert(tail =~= all.skip(plan.end as int));
    out
}

} // verus!
