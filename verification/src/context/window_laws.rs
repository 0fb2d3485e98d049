//! What holds of the estimates, of where the line between old and recent is drawn, and of
//! how full the window is said to be.

use vstd::prelude::*;

use crate::context::budget::{effective_window_of, pressure_of, Budget, ModelInfo};
use crate::context::compact::{
    compacted, keep_of, lemma_recent_cut, lemma_safe_cut, recent_cut, resolved, safe_cut, Plan,
};
use crate::context::prune::{
    clearable, cleared, cutoff_of, delivered, is_protected_call, lemma_cutoff, message_tokens,
    parts_cleared, parts_delivered, parts_reclaimable, parts_weight, protected, pruned, pruned_part,
    reclaimable, tail_tokens, tokens_of, weight, CLEARED,
};
use crate::protocol::message::{MessageModel, PartModel, ResultModel, Role};
use crate::text::bytes_of;

verus! {

/// What is weighed of one part: all the bytes it brings into the prompt, or a flat
/// thousand for a picture.
pub proof fn law_a_part_weighs_what_it_brings(part: PartModel)
    ensures
        parts_weight(seq![part]) == (match part {
            PartModel::Text { text } => bytes_of(text),
            PartModel::Reasoning { text } => bytes_of(text),
            PartModel::Synthetic { text } => bytes_of(text),
            PartModel::ToolCall(call) => bytes_of(call.name) + bytes_of(call.input),
            PartModel::ToolResult(result) => bytes_of(result.output),
            PartModel::File { path, content } => bytes_of(path) + bytes_of(content),
            PartModel::Image { .. } => 1_000,
        }),
{
    reveal_with_fuel(parts_weight, 2);
    assert(seq![part].drop_last() =~= Seq::<PartModel>::empty());
}

/// Nothing is weighed twice and nothing is passed over: a history weighs what its parts
/// weigh together, and is estimated at a token for every four bytes, rounded up.
pub proof fn law_weights_add_up(
    a: Seq<MessageModel>,
    b: Seq<MessageModel>,
    role: Role,
    before: Seq<PartModel>,
    after: Seq<PartModel>,
)
    ensures
        weight(a + b) == weight(a) + weight(b),
        parts_weight(before + after) == parts_weight(before) + parts_weight(after),
        weight(seq![MessageModel { role, parts: before }]) == parts_weight(before),
        weight(a) <= 4 * tokens_of(a) < weight(a) + 4,
        parts_weight(before) <= 4 * message_tokens(MessageModel { role, parts: before })
            < parts_weight(before) + 4,
{
    lemma_weight(a, b);
    lemma_parts_weight(before, after);
    reveal_with_fuel(weight, 2);
    let one = seq![MessageModel { role, parts: before }];
    assert(one.drop_last() =~= Seq::<MessageModel>::empty());
}

proof fn lemma_weight(a: Seq<MessageModel>, b: Seq<MessageModel>)
    ensures
        weight(a + b) == weight(a) + weight(b),
    decreases b.len(),
{
    if b.len() == 0 {
        assert(a + b =~= a);
    } else {
        lemma_weight(a, b.drop_last());
        assert((a + b).drop_last() =~= a + b.drop_last());
    }
}

proof fn lemma_parts_weight(a: Seq<PartModel>, b: Seq<PartModel>)
    ensures
        parts_weight(a + b) == parts_weight(a) + parts_weight(b),
    decreases b.len(),
{
    if b.len() == 0 {
        assert(a + b =~= a);
    } else {
        lemma_parts_weight(a, b.drop_last());
        assert((a + b).drop_last() =~= a + b.drop_last());
    }
}

/// The tail from a message on is estimated at that message and the tail behind it.
pub proof fn law_the_tail_is_counted_from_the_end(messages: Seq<MessageModel>, i: int)
    requires
        0 <= i <= messages.len(),
    ensures
        i == messages.len() ==> tail_tokens(messages, i) == 0,
        i < messages.len() ==> tail_tokens(messages, i) == message_tokens(messages[i])
            + tail_tokens(messages, i + 1),
{
}

/// The protection window is the shortest tail that holds what is to be protected, or the
/// whole history where that holds less.
pub proof fn law_the_protection_window_is_the_shortest(
    messages: Seq<MessageModel>,
    protect: int,
    i: int,
)
    ensures
        ({
            let cutoff = cutoff_of(messages, protect);
            &&& 0 <= cutoff <= messages.len()
            &&& messages.len() > 0 ==> cutoff < messages.len()
            &&& cutoff > 0 ==> tail_tokens(messages, cutoff) >= protect
            &&& cutoff < i < messages.len() ==> tail_tokens(messages, i) < protect
        }),
{
    lemma_cutoff(messages, messages.len() as int, protect);
}

/// What is old and can be read again is cleared: every output before the cutoff that is
/// neither empty nor of a tool whose output must stay gives way to the note, and its
/// metadata goes too.
pub proof fn law_old_output_is_cleared(all: Seq<MessageModel>, cutoff: int, i: int, j: int)
    requires
        0 <= i < cutoff,
        i < all.len(),
        0 <= j < all[i].parts.len(),
        all[i].parts[j] is ToolResult,
        all[i].parts[j]->ToolResult_0.output.len() > 0,
        forall|m: int, k: int|
            0 <= m < all.len() && 0 <= k < all[m].parts.len() && (#[trigger] all[m].parts[k]
                is ToolCall) && all[m].parts[k]->ToolCall_0.id
                == all[i].parts[j]->ToolResult_0.call_id ==> {
                let name = all[m].parts[k]->ToolCall_0.name;
                name != "skill"@ && name != "todo_read"@ && name != "todo_write"@
            },
        all[i].parts[j]->ToolResult_0.output == CLEARED@
            ==> all[i].parts[j]->ToolResult_0.metadata is None,
    ensures
        ({
            let before = all[i].parts[j]->ToolResult_0;
            pruned(all, cutoff)[i].parts[j] == PartModel::ToolResult(
                ResultModel {
                    call_id: before.call_id,
                    output: "[Old tool output cleared to reclaim context. Re-read if needed.]"@,
                    metadata: None,
                    is_error: before.is_error,
                },
            )
        }),
{
    let part = all[i].parts[j];
    let id = part->ToolResult_0.call_id;
    if protected(all, id) {
        let (m, k) = choose|m: int, k: int|
            0 <= m < all.len() && 0 <= k < all[m].parts.len() && is_protected_call(
                #[trigger] all[m].parts[k],
                id,
            );
        assert(all[m].parts[k] is ToolCall);
        assert(false);
    }
    assert(pruned(all, cutoff)[i].parts[j] == pruned_part(all, part));
}

/// What pruning counts, it counts part by part: what it would reclaim, what it delivers
/// and how much it clears add up, over the parts that it would clear and no others.
pub proof fn law_pruning_counts_add_up(
    all: Seq<MessageModel>,
    a: Seq<MessageModel>,
    b: Seq<MessageModel>,
    role: Role,
    part: PartModel,
)
    ensures
        reclaimable(all, a + b) == reclaimable(all, a) + reclaimable(all, b),
        delivered(all, a + b) == delivered(all, a) + delivered(all, b),
        cleared(all, a + b) == cleared(all, a) + cleared(all, b),
        ({
            let one = seq![MessageModel { role, parts: seq![part] }];
            if pruned_part(all, part) == part && !clearable(all, part) {
                reclaimable(all, one) == 0 && delivered(all, one) == 0 && cleared(all, one) == 0
            } else {
                &&& part is ToolResult
                &&& reclaimable(all, one) == bytes_of(part->ToolResult_0.output)
                &&& delivered(all, one) == (bytes_of(part->ToolResult_0.output) + 3) / 4
                &&& cleared(all, one) == 1
            }
        }),
{
    lemma_counts(all, a, b);
    reveal_with_fuel(reclaimable, 2);
    reveal_with_fuel(delivered, 2);
    reveal_with_fuel(cleared, 2);
    reveal_with_fuel(parts_reclaimable, 2);
    reveal_with_fuel(parts_delivered, 2);
    reveal_with_fuel(parts_cleared, 2);
    let one = seq![MessageModel { role, parts: seq![part] }];
    assert(one.drop_last() =~= Seq::<MessageModel>::empty());
    assert(seq![part].drop_last() =~= Seq::<PartModel>::empty());
    assert(seq![part].last() == part);
    assert(one.last().parts == seq![part]);
}

/// The parts of a message are counted one by one.
pub proof fn law_parts_are_counted_one_by_one(
    all: Seq<MessageModel>,
    a: Seq<PartModel>,
    b: Seq<PartModel>,
)
    ensures
        parts_reclaimable(all, a + b) == parts_reclaimable(all, a) + parts_reclaimable(all, b),
        parts_delivered(all, a + b) == parts_delivered(all, a) + parts_delivered(all, b),
        parts_cleared(all, a + b) == parts_cleared(all, a) + parts_cleared(all, b),
    decreases b.len(),
{
    if b.len() == 0 {
        assert(a + b =~= a);
    } else {
        law_parts_are_counted_one_by_one(all, a, b.drop_last());
        assert((a + b).drop_last() =~= a + b.drop_last());
    }
}

proof fn lemma_counts(all: Seq<MessageModel>, a: Seq<MessageModel>, b: Seq<MessageModel>)
    ensures
        reclaimable(all, a + b) == reclaimable(all, a) + reclaimable(all, b),
        delivered(all, a + b) == delivered(all, a) + delivered(all, b),
        cleared(all, a + b) == cleared(all, a) + cleared(all, b),
    decreases b.len(),
{
    if b.len() == 0 {
        assert(a + b =~= a);
    } else {
        lemma_counts(all, a, b.drop_last());
        assert((a + b).drop_last() =~= a + b.drop_last());
    }
}

/// As much is summarized as can be: the cut is the last that keeps enough behind it and
/// parts no call from its result.
pub proof fn law_the_cut_is_the_last(
    messages: Seq<MessageModel>,
    start: int,
    cut: int,
    window: int,
    i: int,
)
    requires
        0 <= start <= cut <= messages.len(),
    ensures
        ({
            let safe = safe_cut(messages, start, cut);
            &&& start <= safe <= cut
            &&& resolved(messages, start, safe)
            &&& safe < i <= cut ==> !resolved(messages, start, i)
        }),
        ({
            let recent = recent_cut(messages, start, messages.len() as int, keep_of(window));
            &&& start < recent ==> tail_tokens(messages, recent) >= keep_of(window)
            &&& recent < i < messages.len() ==> tail_tokens(messages, i) < keep_of(window)
        }),
        1 <= keep_of(window) <= 20_000,
        4 <= window <= 80_000 ==> keep_of(window) == window / 4,
        window > 80_000 ==> keep_of(window) == 20_000,
        window < 4 ==> keep_of(window) == 1,
{
    lemma_safe_cut(messages, start, cut);
    lemma_safe_cut_last(messages, start, cut, i);
    lemma_recent_cut(messages, start, messages.len() as int, keep_of(window));
}

proof fn lemma_safe_cut_last(messages: Seq<MessageModel>, start: int, cut: int, i: int)
    requires
        0 <= start <= cut <= messages.len(),
    ensures
        safe_cut(messages, start, cut) < i <= cut ==> !resolved(messages, start, i),
    decreases cut - start,
{
    if cut > start && !resolved(messages, start, cut) {
        lemma_safe_cut_last(messages, start, cut - 1, i);
    }
}

/// The summary stands where the span stood, as something the harness says: the text that
/// the summary is, behind a line that says what it is.
pub proof fn law_the_summary_stands_for_the_span(
    before: Seq<MessageModel>,
    span: Seq<MessageModel>,
    after: Seq<MessageModel>,
    plan: Plan,
    text: Seq<char>,
)
    requires
        plan.start == before.len(),
        plan.end == before.len() + span.len(),
    ensures
        compacted(before + span + after, plan, text) == before + seq![
            MessageModel {
                role: Role::Developer,
                parts: seq![
                    PartModel::Synthetic {
                        text:
                            "Summary of earlier conversation, which was removed to reclaim context:\n\n"@
                            + text,
                    },
                ],
            },
        ] + after,
{
    let all = before + span + after;
    assert(all.take(plan.start as int) =~= before);
    assert(all.skip(plan.end as int) =~= after);
}

/// How full the window is said to be, for the budget of a model: what the model may write
/// is kept free, twenty thousand at most; from thirteen thousand before the rest is used
/// up room is made, and from twenty thousand before it the user is warned.
pub proof fn law_pressure_rises_in_steps(
    info: ModelInfo,
    b: Budget,
    window: int,
    used: int,
    reclaimable: int,
)
    requires
        window >= 20_000,
        info.context_window == window + (if info.max_output_tokens <= 20_000 {
            info.max_output_tokens as int
        } else {
            20_000
        }),
        b.effective_window == effective_window_of(info),
        b.compact_threshold == window - 13_000,
        b.warn_threshold == window - 20_000,
    ensures
        effective_window_of(info) == window,
        pressure_of(b, used, reclaimable) is Exceeded <==> used >= window,
        pressure_of(b, used, reclaimable) is ShouldPrune || pressure_of(
            b,
            used,
            reclaimable,
        ) is ShouldCompact <==> window - 13_000 <= used < window,
        pressure_of(b, used, reclaimable) is Warning <==> window - 20_000 <= used < window - 13_000,
        pressure_of(b, used, reclaimable) is Comfortable <==> used < window - 20_000,
        pressure_of(b, used, reclaimable) is ShouldPrune ==> reclaimable >= 20_000 && used
            - reclaimable < window - 13_000,
{
}

} // verus!
