//! Pruning: drop old tool output, keep everything else.
//!
//! Never pruned: the protection window at the end, anything a user typed, the call
//! half of a pair, and the output of the tools that carry rules or the plan.

use vstd::prelude::*;

use crate::protocol::id::ToolCallId;
use crate::protocol::message::{
    Message, MessageModel, Part, PartModel, ResultModel, ToolCall, ToolResult,
};
use crate::text::{byte_len, bytes_of, same};

verus! {

/// Placeholder left behind, so that the model knows content was removed.
pub const CLEARED: &'static str =
    "[Old tool output cleared to reclaim context. Re-read if needed.]";

/// What pruning did.
#[derive(Debug, PartialEq, Eq)]
pub struct PruneOutcome {
    pub messages: Vec<Message>,
    pub tokens_reclaimed: usize,
    pub outputs_cleared: usize,
}

/// A quarter, rounded up: about four bytes make a token.
pub open spec fn quarter(n: nat) -> nat {
    (n + 3) / 4
}

fn quarter_of(n: usize) -> (r: usize)
    ensures
        r == quarter(n as nat),
{
    n / 4 + (if n % 4 == 0 { 0usize } else { 1usize })
}

/// How much a part weighs, in bytes. An image counts a flat nominal amount.
pub open spec fn part_weight(part: PartModel) -> nat {
    match part {
        PartModel::Text { text } => bytes_of(text),
        PartModel::Reasoning { text } => bytes_of(text),
        PartModel::Synthetic { text } => bytes_of(text),
        PartModel::ToolCall(call) => bytes_of(call.name) + bytes_of(call.input),
        PartModel::ToolResult(result) => bytes_of(result.output),
        PartModel::File { path, content } => bytes_of(path) + bytes_of(content),
        PartModel::Image { .. } => 1_000,
    }
}

/// How much the parts of a message weigh.
pub open spec fn parts_weight(parts: Seq<PartModel>) -> nat
    decreases parts.len(),
{
    if parts.len() == 0 {
        0
    } else {
        parts_weight(parts.drop_last()) + part_weight(parts.last())
    }
}

/// How much a history weighs.
pub open spec fn weight(messages: Seq<MessageModel>) -> nat
    decreases messages.len(),
{
    if messages.len() == 0 {
        0
    } else {
        weight(messages.drop_last()) + parts_weight(messages.last().parts)
    }
}

/// The tokens a history is estimated at.
pub open spec fn tokens_of(messages: Seq<MessageModel>) -> nat {
    quarter(weight(messages))
}

/// The tokens one message is estimated at.
pub open spec fn message_tokens(message: MessageModel) -> nat {
    quarter(parts_weight(message.parts))
}

/// The start of a sequence weighs no more than all of it.
pub proof fn lemma_parts_weight_take(parts: Seq<PartModel>, i: int)
    requires
        0 <= i <= parts.len(),
    ensures
        parts_weight(parts.take(i)) <= parts_weight(parts),
        i < parts.len() ==> parts_weight(parts.take(i + 1)) == parts_weight(parts.take(i))
            + part_weight(parts[i]),
    decreases parts.len() - i,
{
    if i < parts.len() {
        assert(parts.take(i + 1).drop_last() =~= parts.take(i));
        lemma_parts_weight_take(parts, i + 1);
    } else {
        assert(parts.take(i) =~= parts);
    }
}

/// The start of a history weighs no more than all of it.
pub proof fn lemma_weight_take(messages: Seq<MessageModel>, i: int)
    requires
        0 <= i <= messages.len(),
    ensures
        weight(messages.take(i)) <= weight(messages),
        i < messages.len() ==> weight(messages.take(i + 1)) == weight(messages.take(i))
            + parts_weight(messages[i].parts),
    decreases messages.len() - i,
{
    if i < messages.len() {
        assert(messages.take(i + 1).drop_last() =~= messages.take(i));
        lemma_weight_take(messages, i + 1);
    } else {
        assert(messages.take(i) =~= messages);
    }
}

fn weigh_part(part: &Part) -> (r: usize)
    requires
        part_weight(part.deep_view()) <= usize::MAX,
    ensures
        r == part_weight(part.deep_view()),
{
    match part {
        Part::Text { text } => byte_len(text),
        Part::Reasoning { text } => byte_len(text),
        Part::Synthetic { text } => byte_len(text),
        Part::ToolCall(call) => byte_len(&call.name) + byte_len(&call.input),
        Part::ToolResult(result) => byte_len(&result.output),
        Part::File { path, content } => byte_len(path) + byte_len(content),
        Part::Image { media_type: _, data: _ } => 1_000,
    }
}

fn weigh_message(message: &Message) -> (r: usize)
    requires
        parts_weight(message.deep_view().parts) <= usize::MAX,
    ensures
        r == parts_weight(message.deep_view().parts),
{
    let ghost parts = message.deep_view().parts;
    let mut total: usize = 0;
    let mut i: usize = 0;
    while i < message.parts.len()
        invariant
            i <= message.parts@.len(),
            parts == message.parts.deep_view(),
            parts_weight(parts) <= usize::MAX,
            total == parts_weight(parts.take(i as int)),
        decreases message.parts@.len() - i,
    {
        proof {
            lemma_parts_weight_take(parts, i as int);
            lemma_parts_weight_take(parts, i + 1);
        }
        assert(parts[i as int] == message.parts@[i as int].deep_view());
        total = total + weigh_part(&message.parts[i]);
        i += 1;
    }
    assert(parts.take(i as int) =~= parts);
    total
}

/// Whether the weight of a history can be counted at all.
pub fn fits(messages: &[Message]) -> (r: bool)
    ensures
        r == (weight(messages.deep_view()) <= usize::MAX),
{
    let ghost all = messages.deep_view();
    let mut total: usize = 0;
    let mut i: usize = 0;
    while i < messages.len()
        invariant
            i <= messages@.len(),
            all == messages.deep_view(),
            total == weight(all.take(i as int)),
        decreases messages@.len() - i,
    {
        proof {
            lemma_weight_take(all, i as int);
            lemma_weight_take(all, i + 1);
        }
        assert(all[i as int] == messages@[i as int].deep_view());
        match add_message(total, &messages[i]) {
            Some(sum) => {
                total = sum;
            },
            None => {
                return false;
            },
        }
        i += 1;
    }
    assert(all.take(i as int) =~= all);
    true
}

fn add_message(total: usize, message: &Message) -> (r: Option<usize>)
    ensures
        match r {
            Some(sum) => sum == total + parts_weight(message.deep_view().parts),
            None => total + parts_weight(message.deep_view().parts) > usize::MAX,
        },
{
    let ghost parts = message.deep_view().parts;
    let mut sum: usize = total;
    let mut i: usize = 0;
    while i < message.parts.len()
        invariant
            i <= message.parts@.len(),
            parts == message.parts.deep_view(),
            sum == total + parts_weight(parts.take(i as int)),
        decreases message.parts@.len() - i,
    {
        proof {
            lemma_parts_weight_take(parts, i as int);
            lemma_parts_weight_take(parts, i + 1);
        }
        assert(parts[i as int] == message.parts@[i as int].deep_view());
        let (first, second): (usize, usize) = match &message.parts[i] {
            Part::Text { text } => (byte_len(text), 0),
            Part::Reasoning { text } => (byte_len(text), 0),
            Part::Synthetic { text } => (byte_len(text), 0),
            Part::ToolCall(call) => (byte_len(&call.name), byte_len(&call.input)),
            Part::ToolResult(result) => (byte_len(&result.output), 0),
            Part::File { path, content } => (byte_len(path), byte_len(content)),
            Part::Image { media_type: _, data: _ } => (1_000, 0),
        };
        assert(first + second == part_weight(parts[i as int]));
        if sum > usize::MAX - first {
            return None;
        }
        let partial: usize = sum + first;
        if partial > usize::MAX - second {
            return None;
        }
        sum = partial + second;
        i += 1;
    }
    assert(parts.take(i as int) =~= parts);
    Some(sum)
}

/// Estimates tokens, crudely: exact counts come back from the provider.
pub fn estimate_tokens(messages: &[Message]) -> (r: usize)
    requires
        weight(messages.deep_view()) <= usize::MAX,
    ensures
        r == tokens_of(messages.deep_view()),
{
    let ghost all = messages.deep_view();
    let mut total: usize = 0;
    let mut i: usize = 0;
    while i < messages.len()
        invariant
            i <= messages@.len(),
            all == messages.deep_view(),
            weight(all) <= usize::MAX,
            total == weight(all.take(i as int)),
        decreases messages@.len() - i,
    {
        proof {
            lemma_weight_take(all, i as int);
            lemma_weight_take(all, i + 1);
        }
        assert(all[i as int] == messages@[i as int].deep_view());
        total = total + weigh_message(&messages[i]);
        i += 1;
    }
    assert(all.take(i as int) =~= all);
    quarter_of(total)
}

/// Estimates the tokens of one message.
pub fn estimate_message(message: &Message) -> (r: usize)
    requires
        parts_weight(message.deep_view().parts) <= usize::MAX,
    ensures
        r == message_tokens(message.deep_view()),
{
    quarter_of(weigh_message(message))
}

/// Whether a tool's output survives pruning: it carries rules, or the plan.
pub open spec fn protected_tool(name: Seq<char>) -> bool {
    name == "skill"@ || name == "todo_read"@ || name == "todo_write"@
}

/// Whether a part is a call of a protected tool.
pub open spec fn is_protected_call(part: PartModel, id: Seq<char>) -> bool {
    part matches PartModel::ToolCall(call) && protected_tool(call.name) && call.id == id
}

/// Whether a protected tool was called under an id.
pub open spec fn protected(messages: Seq<MessageModel>, id: Seq<char>) -> bool {
    exists|i: int, j: int|
        0 <= i < messages.len() && 0 <= j < messages[i].parts.len() && is_protected_call(
            #[trigger] messages[i].parts[j],
            id,
        )
}

/// Whether pruning would clear a part: a tool result that still says something,
/// from a call that is not protected.
pub open spec fn clearable(all: Seq<MessageModel>, part: PartModel) -> bool {
    part matches PartModel::ToolResult(result) && result.output.len() > 0 && result.output
        != CLEARED@ && !protected(all, result.call_id)
}

/// A part after pruning.
pub open spec fn pruned_part(all: Seq<MessageModel>, part: PartModel) -> PartModel {
    if clearable(all, part) {
        PartModel::ToolResult(
            ResultModel { output: CLEARED@, metadata: None, ..part->ToolResult_0 },
        )
    } else {
        part
    }
}

/// A message after pruning.
pub open spec fn pruned_message(all: Seq<MessageModel>, message: MessageModel) -> MessageModel {
    MessageModel {
        role: message.role,
        parts: Seq::new(message.parts.len(), |j: int| pruned_part(all, message.parts[j])),
    }
}

/// A history after everything clearable before `cutoff` was cleared.
pub open spec fn pruned(all: Seq<MessageModel>, cutoff: int) -> Seq<MessageModel> {
    Seq::new(
        all.len(),
        |i: int|
            if i < cutoff {
                pruned_message(all, all[i])
            } else {
                all[i]
            },
    )
}

/// The bytes of output in `parts` that pruning would clear.
pub open spec fn parts_reclaimable(all: Seq<MessageModel>, parts: Seq<PartModel>) -> nat
    decreases parts.len(),
{
    if parts.len() == 0 {
        0
    } else {
        parts_reclaimable(all, parts.drop_last()) + (if clearable(all, parts.last()) {
            part_weight(parts.last())
        } else {
            0
        })
    }
}

/// The bytes of output in `messages` that pruning would clear.
pub open spec fn reclaimable(all: Seq<MessageModel>, messages: Seq<MessageModel>) -> nat
    decreases messages.len(),
{
    if messages.len() == 0 {
        0
    } else {
        reclaimable(all, messages.drop_last()) + parts_reclaimable(all, messages.last().parts)
    }
}

/// The tokens that clearing `parts` gives back, each output rounded by itself.
pub open spec fn parts_delivered(all: Seq<MessageModel>, parts: Seq<PartModel>) -> nat
    decreases parts.len(),
{
    if parts.len() == 0 {
        0
    } else {
        parts_delivered(all, parts.drop_last()) + (if clearable(all, parts.last()) {
            quarter(part_weight(parts.last()))
        } else {
            0
        })
    }
}

/// The tokens that clearing `messages` gives back.
pub open spec fn delivered(all: Seq<MessageModel>, messages: Seq<MessageModel>) -> nat
    decreases messages.len(),
{
    if messages.len() == 0 {
        0
    } else {
        delivered(all, messages.drop_last()) + parts_delivered(all, messages.last().parts)
    }
}

/// How many of `parts` pruning would clear.
pub open spec fn parts_cleared(all: Seq<MessageModel>, parts: Seq<PartModel>) -> nat
    decreases parts.len(),
{
    if parts.len() == 0 {
        0
    } else {
        parts_cleared(all, parts.drop_last()) + (if clearable(all, parts.last()) {
            1nat
        } else {
            0
        })
    }
}

/// How many outputs of `messages` pruning would clear.
pub open spec fn cleared(all: Seq<MessageModel>, messages: Seq<MessageModel>) -> nat
    decreases messages.len(),
{
    if messages.len() == 0 {
        0
    } else {
        cleared(all, messages.drop_last()) + parts_cleared(all, messages.last().parts)
    }
}

/// The estimated tokens from message `i` to the end, message by message.
pub open spec fn tail_tokens(messages: Seq<MessageModel>, i: int) -> nat
    decreases messages.len() - i,
{
    if i < 0 || i >= messages.len() {
        0
    } else {
        message_tokens(messages[i]) + tail_tokens(messages, i + 1)
    }
}

/// The last of the first `n` positions from which the tail holds `protect`
/// tokens, or the first position if there is none.
pub open spec fn cutoff_below(messages: Seq<MessageModel>, n: int, protect: int) -> int
    decreases n,
{
    if n <= 0 {
        0
    } else if tail_tokens(messages, n - 1) >= protect {
        n - 1
    } else {
        cutoff_below(messages, n - 1, protect)
    }
}

/// Where the protection window begins.
pub open spec fn cutoff_of(messages: Seq<MessageModel>, protect: int) -> int {
    cutoff_below(messages, messages.len() as int, protect)
}

/// A cutoff lies in the history; the tail from it holds the window, unless it is
/// the first message, and the tail from any later message does not.
pub proof fn lemma_cutoff(messages: Seq<MessageModel>, n: int, protect: int)
    requires
        0 <= n <= messages.len(),
    ensures
        0 <= cutoff_below(messages, n, protect) <= n,
        n > 0 ==> cutoff_below(messages, n, protect) < n,
        cutoff_below(messages, n, protect) > 0 ==> tail_tokens(
            messages,
            cutoff_below(messages, n, protect),
        ) >= protect,
        forall|j: int|
            cutoff_below(messages, n, protect) < j < n ==> #[trigger] tail_tokens(messages, j)
                < protect,
    decreases n,
{
    if n > 0 && tail_tokens(messages, n - 1) < protect {
        lemma_cutoff(messages, n - 1, protect);
    }
}

/// A position with those properties is the cutoff.
pub proof fn lemma_cutoff_unique(messages: Seq<MessageModel>, n: int, protect: int, c: int)
    requires
        0 <= c < n <= messages.len(),
        c > 0 ==> tail_tokens(messages, c) >= protect,
        forall|j: int| c < j < n ==> #[trigger] tail_tokens(messages, j) < protect,
    ensures
        cutoff_below(messages, n, protect) == c,
    decreases n,
{
    if n - 1 > c {
        assert(tail_tokens(messages, n - 1) < protect);
        lemma_cutoff_unique(messages, n - 1, protect, c);
    } else if tail_tokens(messages, n - 1) < protect {
        assert(c == 0);
        assert(cutoff_below(messages, 0, protect) == 0);
    }
}

/// The tail of a history is estimated at no more than its bytes.
pub proof fn lemma_tail_bound(messages: Seq<MessageModel>, i: int)
    requires
        0 <= i <= messages.len(),
    ensures
        weight(messages.take(i)) + tail_tokens(messages, i) <= weight(messages),
    decreases messages.len() - i,
{
    if i < messages.len() {
        lemma_tail_bound(messages, i + 1);
        lemma_weight_take(messages, i);
    } else {
        assert(messages.take(i) =~= messages);
    }
}

/// The index of the first message inside the protection window.
pub fn protection_cutoff(messages: &[Message], protect_tokens: usize) -> (r: usize)
    requires
        weight(messages.deep_view()) <= usize::MAX,
    ensures
        r == cutoff_of(messages.deep_view(), protect_tokens as int),
        r <= messages@.len(),
{
    let ghost all = messages.deep_view();
    let mut accumulated: usize = 0;
    let mut index: usize = messages.len();
    while index > 0
        invariant
            index <= messages@.len(),
            all == messages.deep_view(),
            weight(all) <= usize::MAX,
            accumulated == tail_tokens(all, index as int),
            cutoff_of(all, protect_tokens as int) == cutoff_below(
                all,
                index as int,
                protect_tokens as int,
            ),
        decreases index,
    {
        index -= 1;
        proof {
            lemma_weight_take(all, index as int);
            lemma_weight_take(all, index + 1);
            lemma_tail_bound(all, index as int);
        }
        assert(all[index as int] == messages@[index as int].deep_view());
        accumulated = accumulated + estimate_message(&messages[index]);
        if accumulated >= protect_tokens {
            return index;
        }
    }
    0
}

fn tool_is_protected(name: &str) -> (r: bool)
    ensures
        r == protected_tool(name@),
{
    same(name, "skill") || same(name, "todo_read") || same(name, "todo_write")
}

/// Whether an id is among `ids`.
pub open spec fn listed(ids: Seq<Seq<char>>, id: Seq<char>) -> bool {
    exists|k: int| 0 <= k < ids.len() && #[trigger] ids[k] == id
}

fn lists(ids: &Vec<ToolCallId>, id: &ToolCallId) -> (r: bool)
    ensures
        r == listed(ids.deep_view(), id.deep_view()),
{
    let mut k: usize = 0;
    while k < ids.len()
        invariant
            k <= ids@.len(),
            forall|j: int| 0 <= j < k ==> #[trigger] ids.deep_view()[j] != id.deep_view(),
        decreases ids@.len() - k,
    {
        assert(ids.deep_view()[k as int] == ids@[k as int].deep_view());
        if ids[k].is(id) {
            return true;
        }
        k += 1;
    }
    false
}

/// The ids of calls whose output is exempt from pruning.
pub fn protected_call_ids(messages: &[Message]) -> (r: Vec<ToolCallId>)
    ensures
        forall|id: Seq<char>|
            listed(r.deep_view(), id) <==> #[trigger] protected(messages.deep_view(), id),
{
    let ghost all = messages.deep_view();
    let mut r: Vec<ToolCallId> = Vec::new();
    let mut i: usize = 0;
    while i < messages.len()
        invariant
            i <= messages@.len(),
            all == messages.deep_view(),
            forall|id: Seq<char>|
                listed(r.deep_view(), id) <==> #[trigger] protected(all.take(i as int), id),
        decreases messages@.len() - i,
    {
        let message = &messages[i];
        let ghost parts = message.deep_view().parts;
        assert(all[i as int] == message.deep_view());
        let mut j: usize = 0;
        while j < message.parts.len()
            invariant
                i < messages@.len(),
                j <= message.parts@.len(),
                parts == message.parts.deep_view(),
                forall|id: Seq<char>| #[trigger]
                    listed(r.deep_view(), id) <==> (protected(all.take(i as int), id) || exists|
                        k: int,
                    |
                        0 <= k < j && is_protected_call(#[trigger] parts[k], id)),
            decreases message.parts@.len() - j,
        {
            assert(parts[j as int] == message.parts@[j as int].deep_view());
            let ghost before = r.deep_view();
            let ghost part = parts[j as int];
            match &message.parts[j] {
                Part::ToolCall(call) => {
                    if tool_is_protected(&call.name) {
                        let id = call.id.clone();
                        r.push(id);
                        assert(r.deep_view() =~= before.push(id.deep_view()));
                    }
                },
                _ => {},
            }
            assert forall|id: Seq<char>| #[trigger]
                listed(r.deep_view(), id) <==> (listed(before, id) || is_protected_call(part, id)) by {
                let after = r.deep_view();
                if listed(before, id) {
                    let k = choose|k: int| 0 <= k < before.len() && #[trigger] before[k] == id;
                    assert(after[k] == id);
                }
                if listed(after, id) {
                    let k = choose|k: int| 0 <= k < after.len() && #[trigger] after[k] == id;
                    if k < before.len() {
                        assert(before[k] == id);
                    }
                }
                if is_protected_call(part, id) {
                    assert(after[before.len() as int] == id);
                }
            }
            assert forall|id: Seq<char>| #[trigger]
                listed(r.deep_view(), id) <==> (protected(all.take(i as int), id) || exists|k: int|
                    0 <= k < j + 1 && is_protected_call(#[trigger] parts[k], id)) by {
                if exists|k: int| 0 <= k < j && is_protected_call(#[trigger] parts[k], id) {
                    let k = choose|k: int| 0 <= k < j && is_protected_call(#[trigger] parts[k], id);
                    assert(0 <= k < j + 1 && is_protected_call(parts[k], id));
                }
                assert(listed(before, id) <==> (protected(all.take(i as int), id) || exists|
                    k: int,
                |
                    0 <= k < j && is_protected_call(#[trigger] parts[k], id)));
            }
            j += 1;
        }
        assert forall|id: Seq<char>|
            listed(r.deep_view(), id) <==> #[trigger] protected(all.take(i + 1), id) by {
            let now = all.take(i + 1);
            let then = all.take(i as int);
            assert(listed(r.deep_view(), id) <==> (protected(then, id) || exists|k: int|
                0 <= k < j && is_protected_call(#[trigger] parts[k], id)));
            if protected(then, id) {
                let (a, b) = choose|a: int, b: int|
                    0 <= a < then.len() && 0 <= b < then[a].parts.len() && is_protected_call(
                        #[trigger] then[a].parts[b],
                        id,
                    );
                assert(is_protected_call(now[a].parts[b], id));
            }
            if exists|k: int| 0 <= k < j && is_protected_call(#[trigger] parts[k], id) {
                let k = choose|k: int| 0 <= k < j && is_protected_call(#[trigger] parts[k], id);
                assert(is_protected_call(now[i as int].parts[k], id));
            }
            if protected(now, id) {
                let (a, b) = choose|a: int, b: int|
                    0 <= a < now.len() && 0 <= b < now[a].parts.len() && is_protected_call(
                        #[trigger] now[a].parts[b],
                        id,
                    );
                if a < i {
                    assert(is_protected_call(then[a].parts[b], id));
                } else {
                    assert(is_protected_call(parts[b], id));
                }
            }
        }
        i += 1;
    }
    assert(all.take(i as int) =~= all);
    r
}

/// Whether pruning would clear a part, given the protected ids.
fn is_clearable(part: &Part, ids: &Vec<ToolCallId>, all: Ghost<Seq<MessageModel>>) -> (r: bool)
    requires
        forall|id: Seq<char>| listed(ids.deep_view(), id) <==> #[trigger] protected(all@, id),
    ensures
        r == clearable(all@, part.deep_view()),
{
    match part {
        Part::ToolResult(result) => {
            !result.output.as_str().is_empty() && !same(&result.output, CLEARED) && !lists(
                ids,
                &result.call_id,
            )
        },
        _ => false,
    }
}

/// Clearing weighs no more than what was there.
pub proof fn lemma_parts_reclaimable(all: Seq<MessageModel>, parts: Seq<PartModel>, j: int)
    requires
        0 <= j <= parts.len(),
    ensures
        parts_reclaimable(all, parts.take(j)) <= parts_weight(parts.take(j)),
        parts_delivered(all, parts.take(j)) <= parts_weight(parts.take(j)),
        parts_cleared(all, parts.take(j)) <= j,
        j < parts.len() ==> {
            &&& parts_reclaimable(all, parts.take(j + 1)) == parts_reclaimable(all, parts.take(j))
                + (if clearable(all, parts[j]) {
                part_weight(parts[j])
            } else {
                0
            })
            &&& parts_delivered(all, parts.take(j + 1)) == parts_delivered(all, parts.take(j)) + (
            if clearable(all, parts[j]) {
                quarter(part_weight(parts[j]))
            } else {
                0
            })
            &&& parts_cleared(all, parts.take(j + 1)) == parts_cleared(all, parts.take(j)) + (
            if clearable(all, parts[j]) {
                1nat
            } else {
                0
            })
        },
    decreases j,
{
    if j < parts.len() {
        assert(parts.take(j + 1).drop_last() =~= parts.take(j));
    }
    if j > 0 {
        assert(parts.take(j).drop_last() =~= parts.take(j - 1));
        lemma_parts_reclaimable(all, parts, j - 1);
    }
}

/// The same over a history.
pub proof fn lemma_reclaimable(all: Seq<MessageModel>, messages: Seq<MessageModel>, i: int)
    requires
        0 <= i <= messages.len(),
    ensures
        reclaimable(all, messages.take(i)) <= weight(messages.take(i)),
        delivered(all, messages.take(i)) <= weight(messages.take(i)),
        i < messages.len() ==> {
            &&& reclaimable(all, messages.take(i + 1)) == reclaimable(all, messages.take(i))
                + parts_reclaimable(all, messages[i].parts)
            &&& delivered(all, messages.take(i + 1)) == delivered(all, messages.take(i))
                + parts_delivered(all, messages[i].parts)
            &&& cleared(all, messages.take(i + 1)) == cleared(all, messages.take(i))
                + parts_cleared(all, messages[i].parts)
        },
    decreases i,
{
    if i < messages.len() {
        assert(messages.take(i + 1).drop_last() =~= messages.take(i));
    }
    if i > 0 {
        assert(messages.take(i).drop_last() =~= messages.take(i - 1));
        lemma_reclaimable(all, messages, i - 1);
        let parts = messages[i - 1].parts;
        lemma_parts_reclaimable(all, parts, parts.len() as int);
        assert(parts.take(parts.len() as int) =~= parts);
    }
}

/// How many tokens pruning would reclaim, without doing it.
pub fn reclaimable_tokens(messages: &[Message], protect_tokens: usize) -> (r: usize)
    requires
        weight(messages.deep_view()) <= usize::MAX,
    ensures
        r == quarter(
            reclaimable(
                messages.deep_view(),
                messages.deep_view().take(
                    cutoff_of(messages.deep_view(), protect_tokens as int),
                ),
            ),
        ),
{
    let ghost all = messages.deep_view();
    let cutoff = protection_cutoff(messages, protect_tokens);
    let ids = protected_call_ids(messages);
    let mut total: usize = 0;
    let mut i: usize = 0;
    while i < cutoff
        invariant
            i <= cutoff <= messages@.len(),
            all == messages.deep_view(),
            weight(all) <= usize::MAX,
            forall|id: Seq<char>| listed(ids.deep_view(), id) <==> #[trigger] protected(all, id),
            total == reclaimable(all, all.take(i as int)),
        decreases cutoff - i,
    {
        let message = &messages[i];
        let ghost parts = message.deep_view().parts;
        assert(all[i as int] == message.deep_view());
        proof {
            lemma_reclaimable(all, all, i as int);
            lemma_weight_take(all, i as int);
            lemma_weight_take(all, i + 1);
        }
        let ghost start = total as int;
        let mut j: usize = 0;
        while j < message.parts.len()
            invariant
                i < messages@.len(),
                j <= message.parts@.len(),
                parts == message.parts.deep_view(),
                forall|id: Seq<char>|
                    listed(ids.deep_view(), id) <==> #[trigger] protected(all, id),
                total == start + parts_reclaimable(all, parts.take(j as int)),
                start + parts_weight(parts) <= usize::MAX,
            decreases message.parts@.len() - j,
        {
            assert(parts[j as int] == message.parts@[j as int].deep_view());
            proof {
                lemma_parts_reclaimable(all, parts, j as int);
                lemma_parts_weight_take(parts, j as int);
                lemma_parts_weight_take(parts, j + 1);
            }
            if is_clearable(&message.parts[j], &ids, Ghost(all)) {
                total = total + weigh_part(&message.parts[j]);
            }
            j += 1;
        }
        assert(parts.take(j as int) =~= parts);
        i += 1;
    }
    quarter_of(total)
}

/// Clears a part's output in place.
fn clear(part: &mut Part)
    requires
        *old(part) is ToolResult,
    ensures
        final(part).deep_view() == PartModel::ToolResult(
            ResultModel {
                output: CLEARED@,
                metadata: None,
                ..old(part).deep_view()->ToolResult_0
            },
        ),
{
    match part {
        Part::ToolResult(result) => {
            result.output = CLEARED.to_owned();
            result.metadata = None;
        },
        _ => {},
    }
}

/// Clears what is clearable in one message, and returns the tokens and the number
/// of outputs.
fn clear_message(message: &mut Message, ids: &Vec<ToolCallId>, all: Ghost<Seq<MessageModel>>) -> (r: (
    usize,
    usize,
))
    requires
        forall|id: Seq<char>| listed(ids.deep_view(), id) <==> #[trigger] protected(all@, id),
        parts_weight(old(message).deep_view().parts) <= usize::MAX,
    ensures
        final(message).deep_view() == pruned_message(all@, old(message).deep_view()),
        r.0 == parts_delivered(all@, old(message).deep_view().parts),
        r.1 == parts_cleared(all@, old(message).deep_view().parts),
{
    let ghost parts = message.deep_view().parts;
    let ghost role = message.role;
    let mut tokens: usize = 0;
    let mut count: usize = 0;
    let mut j: usize = 0;
    while j < message.parts.len()
        invariant
            j <= message.parts@.len() == parts.len(),
            message.role == role,
            forall|id: Seq<char>| listed(ids.deep_view(), id) <==> #[trigger] protected(all@, id),
            parts_weight(parts) <= usize::MAX,
            tokens == parts_delivered(all@, parts.take(j as int)),
            count == parts_cleared(all@, parts.take(j as int)),
            forall|k: int|
                0 <= k < j ==> (#[trigger] message.parts@[k]).deep_view() == pruned_part(
                    all@,
                    parts[k],
                ),
            forall|k: int|
                j <= k < parts.len() ==> (#[trigger] message.parts@[k]).deep_view() == parts[k],
        decreases message.parts@.len() - j,
    {
        proof {
            lemma_parts_reclaimable(all@, parts, j as int);
            lemma_parts_reclaimable(all@, parts, j + 1);
            lemma_parts_weight_take(parts, j as int);
            lemma_parts_weight_take(parts, j + 1);
        }
        assert(message.parts@[j as int].deep_view() == parts[j as int]);
        if is_clearable(&message.parts[j], ids, all) {
            tokens = tokens + quarter_of(weigh_part(&message.parts[j]));
            count = count + 1;
            clear(&mut message.parts[j]);
        }
        j += 1;
    }
    assert(parts.take(j as int) =~= parts);
    assert(message.deep_view().parts =~= pruned_message(all@, MessageModel { role, parts }).parts);
    (tokens, count)
}

/// Clears prunable tool outputs before the protection window. The history comes
/// back unchanged when there is too little to reclaim.
pub fn prune(messages: Vec<Message>, protect_tokens: usize, minimum: usize) -> (r: PruneOutcome)
    requires
        weight(messages.deep_view()) <= usize::MAX,
    ensures
        ({
            let all = messages.deep_view();
            let cutoff = cutoff_of(all, protect_tokens as int);
            if quarter(reclaimable(all, all.take(cutoff))) < minimum {
                r.messages == messages && r.tokens_reclaimed == 0 && r.outputs_cleared == 0
            } else {
                &&& r.messages.deep_view() == pruned(all, cutoff)
                &&& r.tokens_reclaimed == delivered(all, all.take(cutoff))
                &&& r.outputs_cleared == cleared(all, all.take(cutoff))
            }
        }),
{
    if reclaimable_tokens(&messages, protect_tokens) < minimum {
        return PruneOutcome { messages, tokens_reclaimed: 0, outputs_cleared: 0 };
    }
    let ghost all = messages.deep_view();
    let slice = messages.as_slice();
    assert(slice.deep_view() =~= all);
    let cutoff = protection_cutoff(slice, protect_tokens);
    let ids = protected_call_ids(slice);
    let mut tokens_reclaimed: usize = 0;
    let mut outputs_cleared: usize = 0;
    let mut out = messages;
    let mut i: usize = 0;
    while i < cutoff
        invariant
            i <= cutoff <= out@.len() == all.len(),
            weight(all) <= usize::MAX,
            forall|id: Seq<char>| listed(ids.deep_view(), id) <==> #[trigger] protected(all, id),
            tokens_reclaimed == delivered(all, all.take(i as int)),
            outputs_cleared == cleared(all, all.take(i as int)),
            outputs_cleared <= tokens_reclaimed,
            forall|k: int|
                0 <= k < i ==> (#[trigger] out@[k]).deep_view() == pruned_message(all, all[k]),
            forall|k: int| i <= k < all.len() ==> (#[trigger] out@[k]).deep_view() == all[k],
        decreases cutoff - i,
    {
        proof {
            lemma_reclaimable(all, all, i as int);
            lemma_reclaimable(all, all, i + 1);
            lemma_weight_take(all, i as int);
            lemma_weight_take(all, i + 1);
            lemma_count_bound(all, all[i as int].parts);
        }
        assert(out@[i as int].deep_view() == all[i as int]);
        let (tokens, count) = clear_message(&mut out[i], &ids, Ghost(all));
        tokens_reclaimed = tokens_reclaimed + tokens;
        outputs_cleared = outputs_cleared + count;
        i += 1;
    }
    assert(out.deep_view() =~= pruned(all, cutoff as int));
    PruneOutcome { messages: out, tokens_reclaimed, outputs_cleared }
}

/// Text that is not empty takes at least a byte.
pub proof fn lemma_bytes_positive(s: Seq<char>)
    ensures
        s.len() > 0 ==> bytes_of(s) > 0,
{
    if s.len() > 0 {
        vstd::utf8::encode_utf8_first_scalar(s);
    }
}

/// Every output cleared gives back at least a token.
pub proof fn lemma_count_bound(all: Seq<MessageModel>, parts: Seq<PartModel>)
    ensures
        parts_cleared(all, parts) <= parts_delivered(all, parts),
    decreases parts.len(),
{
    if parts.len() > 0 {
        lemma_count_bound(all, parts.drop_last());
        if clearable(all, parts.last()) {
            lemma_bytes_positive(parts.last()->ToolResult_0.output);
        }
    }
}

} // verus!
