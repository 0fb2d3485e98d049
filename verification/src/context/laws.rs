//! What holds of context management as a whole.

use vstd::prelude::*;

use crate::context::budget::{
    effective_window_of, less, pressure_of, Budget, ModelInfo, Pressure,
};
use crate::context::compact::{
    answered, answers_at, calls_at, compacted, is_call, is_result, keep_of, lemma_recent_cut,
    lemma_safe_cut, lemma_tail_grows, prefix_end, recent_cut, resolved, safe_cut, span_end, summary_message, Plan,
};
use crate::context::prune::{
    clearable, cleared, cutoff_of, delivered, is_protected_call, lemma_bytes_positive, lemma_cutoff,
    lemma_cutoff_unique, parts_cleared, parts_delivered, parts_reclaimable, protected, pruned,
    pruned_message, pruned_part, quarter, reclaimable, tail_tokens,
};
use crate::context::PRUNE_MINIMUM_TOKENS;
use crate::protocol::message::{MessageModel, PartModel, Role};

verus! {

/// Pruning touches nothing but old tool output: every message keeps its place, its
/// role and its number of parts, everything from the cutoff on is as it was, and
/// so is every part that is no tool result. A tool result keeps its call's id, so
/// no call is ever left without its result.
pub proof fn law_pruning_only_clears_output(all: Seq<MessageModel>, cutoff: int, i: int, j: int)
    requires
        0 <= i < all.len(),
        0 <= j < all[i].parts.len(),
    ensures
        pruned(all, cutoff).len() == all.len(),
        pruned(all, cutoff)[i].role == all[i].role,
        pruned(all, cutoff)[i].parts.len() == all[i].parts.len(),
        cutoff <= i ==> pruned(all, cutoff)[i] == all[i],
        !(all[i].parts[j] is ToolResult) ==> pruned(all, cutoff)[i].parts[j] == all[i].parts[j],
        all[i].parts[j] matches PartModel::ToolResult(before) ==> {
            &&& pruned(all, cutoff)[i].parts[j] matches PartModel::ToolResult(after)
            &&& after.call_id == before.call_id
            &&& after.is_error == before.is_error
        },
{
}

/// A call and its result are where they were before pruning.
pub proof fn law_pruning_orphans_no_call(
    all: Seq<MessageModel>,
    cutoff: int,
    i: int,
    id: Seq<char>,
)
    requires
        0 <= i < all.len(),
    ensures
        calls_at(pruned(all, cutoff), i, id) == calls_at(all, i, id),
        answers_at(pruned(all, cutoff), i, id) == answers_at(all, i, id),
{
    let after = pruned(all, cutoff);
    assert forall|j: int| 0 <= j < all[i].parts.len() implies is_call(
        #[trigger] after[i].parts[j],
        id,
    ) == is_call(all[i].parts[j], id) && is_result(after[i].parts[j], id) == is_result(
        all[i].parts[j],
        id,
    ) by {}
    if calls_at(all, i, id) {
        let j = choose|j: int| 0 <= j < all[i].parts.len() && is_call(#[trigger] all[i].parts[j], id);
        assert(is_call(after[i].parts[j], id));
    }
    if answers_at(all, i, id) {
        let j = choose|j: int|
            0 <= j < all[i].parts.len() && is_result(#[trigger] all[i].parts[j], id);
        assert(is_result(after[i].parts[j], id));
    }
}

/// The output of a protected tool survives pruning, however old it is.
pub proof fn law_protected_output_survives(all: Seq<MessageModel>, cutoff: int, i: int, j: int)
    requires
        0 <= i < all.len(),
        0 <= j < all[i].parts.len(),
        all[i].parts[j] is ToolResult,
        protected(all, all[i].parts[j]->ToolResult_0.call_id),
    ensures
        pruned(all, cutoff)[i].parts[j] == all[i].parts[j],
{
}

/// Pruning protects the same calls as before.
pub proof fn law_pruning_keeps_protection(all: Seq<MessageModel>, cutoff: int, id: Seq<char>)
    ensures
        protected(pruned(all, cutoff), id) == protected(all, id),
{
    let after = pruned(all, cutoff);
    if protected(all, id) {
        let (i, j) = choose|i: int, j: int|
            0 <= i < all.len() && 0 <= j < all[i].parts.len() && is_protected_call(
                #[trigger] all[i].parts[j],
                id,
            );
        assert(after[i].parts[j] == all[i].parts[j]);
        assert(is_protected_call(after[i].parts[j], id));
    }
    if protected(after, id) {
        let (i, j) = choose|i: int, j: int|
            0 <= i < after.len() && 0 <= j < after[i].parts.len() && is_protected_call(
                #[trigger] after[i].parts[j],
                id,
            );
        law_pruning_only_clears_output(all, cutoff, i, j);
        assert(is_protected_call(all[i].parts[j], id));
    }
}

proof fn lemma_nothing_left(after: Seq<MessageModel>, parts: Seq<PartModel>)
    requires
        forall|j: int| 0 <= j < parts.len() ==> !clearable(after, #[trigger] parts[j]),
    ensures
        parts_reclaimable(after, parts) == 0,
        parts_delivered(after, parts) == 0,
        parts_cleared(after, parts) == 0,
    decreases parts.len(),
{
    if parts.len() > 0 {
        lemma_nothing_left(after, parts.drop_last());
    }
}

proof fn lemma_nothing_left_in(after: Seq<MessageModel>, messages: Seq<MessageModel>)
    requires
        forall|i: int, j: int|
            0 <= i < messages.len() && 0 <= j < messages[i].parts.len() ==> !clearable(
                after,
                #[trigger] messages[i].parts[j],
            ),
    ensures
        reclaimable(after, messages) == 0,
        delivered(after, messages) == 0,
        cleared(after, messages) == 0,
    decreases messages.len(),
{
    if messages.len() > 0 {
        let last = messages.last();
        assert forall|j: int| 0 <= j < last.parts.len() implies !clearable(
            after,
            #[trigger] last.parts[j],
        ) by {
            assert(!clearable(after, messages[messages.len() - 1].parts[j]));
        }
        lemma_nothing_left(after, last.parts);
        assert forall|i: int, j: int|
            0 <= i < messages.drop_last().len() && 0 <= j
                < messages.drop_last()[i].parts.len() implies !clearable(
            after,
            #[trigger] messages.drop_last()[i].parts[j],
        ) by {
            assert(!clearable(after, messages[i].parts[j]));
        }
        lemma_nothing_left_in(after, messages.drop_last());
    }
}

proof fn lemma_tail_unchanged(all: Seq<MessageModel>, after: Seq<MessageModel>, c: int, i: int)
    requires
        all.len() == after.len(),
        0 <= c <= i <= all.len(),
        forall|k: int| c <= k < all.len() ==> #[trigger] after[k] == all[k],
    ensures
        tail_tokens(after, i) == tail_tokens(all, i),
    decreases all.len() - i,
{
    if i < all.len() {
        assert(after[i] == all[i]);
        lemma_tail_unchanged(all, after, c, i + 1);
    }
}

/// Pruning is idempotent: afterwards the protection window begins where it did,
/// nothing is left to reclaim, and pruning again changes nothing.
pub proof fn law_pruning_is_idempotent(all: Seq<MessageModel>, protect: int)
    ensures
        ({
            let cutoff = cutoff_of(all, protect);
            let after = pruned(all, cutoff);
            &&& cutoff_of(after, protect) == cutoff
            &&& pruned(after, cutoff) == after
            &&& reclaimable(after, after.take(cutoff)) == 0
            &&& delivered(after, after.take(cutoff)) == 0
            &&& cleared(after, after.take(cutoff)) == 0
        }),
{
    let cutoff = cutoff_of(all, protect);
    let after = pruned(all, cutoff);
    let n = all.len() as int;
    lemma_cutoff(all, n, protect);
    if n > 0 {
        lemma_tail_unchanged(all, after, cutoff, cutoff);
        assert forall|j: int| cutoff < j < n implies #[trigger] tail_tokens(after, j) < protect by {
            lemma_tail_unchanged(all, after, cutoff, j);
            assert(tail_tokens(all, j) < protect);
        }
        lemma_cutoff_unique(after, n, protect, cutoff);
    }
    assert forall|i: int, j: int|
        0 <= i < cutoff && 0 <= j < after[i].parts.len() implies !clearable(
        after,
        #[trigger] after[i].parts[j],
    ) by {
        let part = all[i].parts[j];
        assert(after[i].parts[j] == pruned_part(all, part));
        if part is ToolResult {
            law_pruning_keeps_protection(all, cutoff, part->ToolResult_0.call_id);
        }
    }
    let old = after.take(cutoff);
    assert forall|i: int, j: int|
        0 <= i < old.len() && 0 <= j < old[i].parts.len() implies !clearable(
        after,
        #[trigger] old[i].parts[j],
    ) by {
        assert(!clearable(after, after[i].parts[j]));
    }
    lemma_nothing_left_in(after, old);
    assert forall|i: int| 0 <= i < n implies #[trigger] pruned(after, cutoff)[i] == after[i] by {
        if i < cutoff {
            assert(pruned_message(after, after[i]).parts =~= after[i].parts);
        }
    }
    assert(pruned(after, cutoff) =~= after);
}

proof fn lemma_estimate_of_parts(all: Seq<MessageModel>, parts: Seq<PartModel>)
    ensures
        parts_reclaimable(all, parts) <= 4 * parts_delivered(all, parts),
        parts_reclaimable(all, parts) > 0 ==> parts_cleared(all, parts) > 0,
        parts_cleared(all, parts) <= parts_delivered(all, parts),
    decreases parts.len(),
{
    if parts.len() > 0 {
        lemma_estimate_of_parts(all, parts.drop_last());
        if clearable(all, parts.last()) {
            lemma_bytes_positive(parts.last()->ToolResult_0.output);
        }
    }
}

proof fn lemma_estimate(all: Seq<MessageModel>, messages: Seq<MessageModel>)
    ensures
        reclaimable(all, messages) <= 4 * delivered(all, messages),
        reclaimable(all, messages) > 0 ==> cleared(all, messages) > 0,
        cleared(all, messages) <= delivered(all, messages),
    decreases messages.len(),
{
    if messages.len() > 0 {
        lemma_estimate(all, messages.drop_last());
        lemma_estimate_of_parts(all, messages.last().parts);
    }
}

/// The estimate never promises more than pruning delivers, and where it promises
/// anything at least one output is cleared: deciding to prune always makes
/// progress.
pub proof fn law_the_estimate_is_delivered(all: Seq<MessageModel>, messages: Seq<MessageModel>)
    ensures
        quarter(reclaimable(all, messages)) <= delivered(all, messages),
        quarter(reclaimable(all, messages)) > 0 ==> cleared(all, messages) > 0,
{
    lemma_estimate(all, messages);
}

/// Compaction leaves the prefix and the recent tail verbatim, and puts one
/// developer message between them.
pub proof fn law_compaction_keeps_both_ends(
    messages: Seq<MessageModel>,
    plan: Plan,
    text: Seq<char>,
)
    requires
        plan.start < plan.end <= messages.len(),
    ensures
        ({
            let after = compacted(messages, plan, text);
            &&& after.len() == messages.len() - (plan.end - plan.start) + 1
            &&& after.take(plan.start as int) == messages.take(plan.start as int)
            &&& after[plan.start as int] == summary_message(text)
            &&& after[plan.start as int].role == Role::Developer
            &&& after.skip(plan.start + 1) == messages.skip(plan.end as int)
        }),
{
    let after = compacted(messages, plan, text);
    assert(after.take(plan.start as int) =~= messages.take(plan.start as int));
    assert(after.skip(plan.start + 1) =~= messages.skip(plan.end as int));
}

/// The span that is summarized begins where the preserved prefix ends and holds the
/// result of every call in it. Where there is such a span, it leaves out the newest
/// message, and what it leaves out holds the recent tokens that are to be kept.
pub proof fn law_the_span_is_closed(
    messages: Seq<MessageModel>,
    preserved_prefix: int,
    effective_window: int,
)
    requires
        0 <= preserved_prefix,
    ensures
        ({
            let start = prefix_end(messages, preserved_prefix);
            let end = span_end(messages, preserved_prefix, effective_window);
            &&& 0 <= start <= end <= messages.len()
            &&& start <= preserved_prefix
            &&& resolved(messages, start, end)
            &&& start < end ==> end < messages.len()
            &&& start < end ==> tail_tokens(messages, end) >= keep_of(effective_window)
        }),
{
    let start = prefix_end(messages, preserved_prefix);
    let n = messages.len() as int;
    lemma_recent_cut(messages, start, n, keep_of(effective_window));
    let cut = recent_cut(messages, start, n, keep_of(effective_window));
    lemma_safe_cut(messages, start, cut);
    lemma_tail_grows(messages, safe_cut(messages, start, cut), cut);
}

/// The newest message is never summarized: it ends the compacted history as it
/// ended the history.
pub proof fn law_the_newest_message_survives(
    messages: Seq<MessageModel>,
    preserved_prefix: int,
    effective_window: int,
    plan: Plan,
    text: Seq<char>,
)
    requires
        0 <= preserved_prefix,
        plan.start == prefix_end(messages, preserved_prefix),
        plan.end == span_end(messages, preserved_prefix, effective_window),
        plan.start < plan.end,
    ensures
        compacted(messages, plan, text).last() == messages.last(),
{
    law_the_span_is_closed(messages, preserved_prefix, effective_window);
}

/// Whether each id is called in one message at most, answered in one message at
/// most, and never answered before it is called.
pub open spec fn paired(messages: Seq<MessageModel>) -> bool {
    &&& forall|i: int, k: int, id: Seq<char>|
        0 <= i < messages.len() && 0 <= k < messages.len() && #[trigger] calls_at(messages, i, id)
            && #[trigger] calls_at(messages, k, id) ==> i == k
    &&& forall|i: int, k: int, id: Seq<char>|
        0 <= i < messages.len() && 0 <= k < messages.len() && #[trigger] answers_at(
            messages,
            i,
            id,
        ) && #[trigger] answers_at(messages, k, id) ==> i == k
    &&& forall|i: int, k: int, id: Seq<char>|
        0 <= i < messages.len() && 0 <= k < messages.len() && #[trigger] calls_at(messages, i, id)
            && #[trigger] answers_at(messages, k, id) ==> i <= k
}

/// No pair is split: where a call and its result both stand behind the prefix, the
/// summarized span holds both of them or neither.
pub proof fn law_no_pair_is_split(
    messages: Seq<MessageModel>,
    preserved_prefix: int,
    effective_window: int,
    call: int,
    answer: int,
    id: Seq<char>,
)
    requires
        0 <= preserved_prefix,
        paired(messages),
        0 <= call < messages.len(),
        0 <= answer < messages.len(),
        calls_at(messages, call, id),
        answers_at(messages, answer, id),
        prefix_end(messages, preserved_prefix) <= call,
    ensures
        ({
            let end = span_end(messages, preserved_prefix, effective_window);
            (call < end) == (answer < end)
        }),
{
    let start = prefix_end(messages, preserved_prefix);
    let end = span_end(messages, preserved_prefix, effective_window);
    law_the_span_is_closed(messages, preserved_prefix, effective_window);
    if call < end {
        assert(answered(messages, start, end, id));
        let i = choose|i: int| start <= i < end && #[trigger] answers_at(messages, i, id);
        assert(i == answer);
    }
    if answer < end {
        assert(call <= answer);
    }
}

/// With the thresholds of a model, being in the compaction band means pruning
/// exactly when there is the minimum to reclaim.
pub proof fn law_pruning_is_preferred(info: ModelInfo, b: Budget, used: int, reclaimable: int)
    requires
        b.effective_window == effective_window_of(info),
        b.compact_threshold == less(effective_window_of(info), 13_000),
        b.warn_threshold == less(effective_window_of(info), 20_000),
        0 < b.compact_threshold <= used < b.effective_window,
        0 <= reclaimable,
    ensures
        pressure_of(b, used, reclaimable) == (if reclaimable >= PRUNE_MINIMUM_TOKENS {
            Pressure::ShouldPrune
        } else {
            Pressure::ShouldCompact
        }),
{
}

} // verus!
