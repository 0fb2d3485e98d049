//! Loop detection.
//!
//! A step is summed up by its tools, inputs and outputs. Repeating a call whose
//! output changed is progress; only a repeat with the same output is a loop.

use std::collections::VecDeque;

use vstd::prelude::*;

use crate::order::{
    in_order, law_sorting, law_sorting_forgets_order, sort_texts, sorted_by_key, text_key,
};
use crate::text::{hex, hex_of, join, join_of, same};

verus! {

/// Steps considered.
pub const DEFAULT_WINDOW: usize = 10;

/// Repeats within the window that are still no loop.
pub const DEFAULT_MAX_REPEATS: usize = 5;

/// Watches the recent steps for one that keeps recurring.
#[derive(Debug)]
pub struct LoopGuard {
    window: usize,
    max_repeats: usize,
    signatures: VecDeque<String>,
}

/// What a [`LoopGuard`] holds.
pub struct GuardModel {
    pub window: nat,
    pub max_repeats: nat,
    pub signatures: Seq<Seq<char>>,
}

impl DeepView for LoopGuard {
    type V = GuardModel;

    closed spec fn deep_view(&self) -> GuardModel {
        GuardModel {
            window: self.window as nat,
            max_repeats: self.max_repeats as nat,
            signatures: Seq::new(self.signatures@.len(), |i: int| self.signatures@[i]@),
        }
    }
}

/// One tool interaction as a text: tool, input and output, apart by zeros.
pub open spec fn interaction_text(t: (Seq<char>, Seq<char>, Seq<char>)) -> Seq<char> {
    t.0 + "\u{0}"@ + t.1 + "\u{0}"@ + t.2
}

/// The interactions of a step as texts.
pub open spec fn interaction_texts(step: Seq<(Seq<char>, Seq<char>, Seq<char>)>) -> Seq<Seq<char>> {
    Seq::new(step.len(), |i: int| interaction_text(step[i]))
}

/// The 64-bit FNV-1a hash.
pub open spec fn fnv(bytes: Seq<u8>) -> u64
    decreases bytes.len(),
{
    if bytes.len() == 0 {
        0xcbf2_9ce4_8422_2325
    } else {
        (fnv(bytes.drop_last()) ^ (bytes.last() as u64)).wrapping_mul(0x100_0000_01b3)
    }
}

/// The digest of a step: its interactions sorted, joined and hashed.
pub open spec fn signature_text(step: Seq<(Seq<char>, Seq<char>, Seq<char>)>) -> Seq<char> {
    let joined = join_of(sorted_by_key(interaction_texts(step), text_key()), "\u{1}"@);
    hex_of(fnv(vstd::utf8::encode_utf8(joined)) as nat, 16)
}

/// The last `window` of `signatures`.
pub open spec fn last_of(signatures: Seq<Seq<char>>, window: nat) -> Seq<Seq<char>> {
    if signatures.len() > window {
        signatures.skip(signatures.len() - window)
    } else {
        signatures
    }
}

/// How often `s` stands in `signatures`.
pub open spec fn count_of(signatures: Seq<Seq<char>>, s: Seq<char>) -> nat
    decreases signatures.len(),
{
    if signatures.len() == 0 {
        0
    } else {
        count_of(signatures.drop_last(), s) + (if signatures.last() == s {
            1nat
        } else {
            0
        })
    }
}

/// The first signature that has by its place occurred more than `max_repeats`
/// times, with that count.
pub open spec fn excess(signatures: Seq<Seq<char>>, max_repeats: nat) -> Option<(Seq<char>, nat)>
    decreases signatures.len(),
{
    if signatures.len() == 0 {
        None
    } else if excess(signatures.drop_last(), max_repeats) is Some {
        excess(signatures.drop_last(), max_repeats)
    } else if count_of(signatures, signatures.last()) > max_repeats {
        Some((signatures.last(), count_of(signatures, signatures.last())))
    } else {
        None
    }
}

/// What a guard detects: nothing until its window is full.
pub open spec fn detected(guard: GuardModel) -> Option<(Seq<char>, nat)> {
    if guard.signatures.len() < guard.window {
        None
    } else {
        excess(guard.signatures, guard.max_repeats)
    }
}

impl Default for LoopGuard {
    fn default() -> (r: Self)
        ensures
            r.deep_view() == (GuardModel {
                window: DEFAULT_WINDOW as nat,
                max_repeats: DEFAULT_MAX_REPEATS as nat,
                signatures: Seq::empty(),
            }),
    {
        LoopGuard::new(DEFAULT_WINDOW, DEFAULT_MAX_REPEATS)
    }
}

impl LoopGuard {
    pub fn new(window: usize, max_repeats: usize) -> (r: Self)
        ensures
            r.deep_view() == (GuardModel {
                window: window as nat,
                max_repeats: max_repeats as nat,
                signatures: Seq::empty(),
            }),
    {
        let r = LoopGuard { window, max_repeats, signatures: VecDeque::new() };
        assert(r.deep_view().signatures =~= Seq::<Seq<char>>::empty());
        r
    }

    /// Records a completed step. A step without tool calls records nothing: it
    /// would only push real signatures out of the window.
    pub fn record(&mut self, interactions: &[(String, String, String)])
        ensures
            final(self).deep_view() == (if interactions@.len() == 0 {
                old(self).deep_view()
            } else {
                GuardModel {
                    signatures: last_of(
                        old(self).deep_view().signatures.push(
                            signature_text(interactions.deep_view()),
                        ),
                        old(self).deep_view().window,
                    ),
                    ..old(self).deep_view()
                }
            }),
    {
        if interactions.len() == 0 {
            return;
        }
        let signature = signature_of(interactions);
        let ghost pushed = self.deep_view().signatures.push(signature@);
        self.signatures.push_back(signature);
        assert(self.deep_view().signatures =~= pushed);
        let ghost mut dropped: int = 0;
        assert(pushed.skip(0) =~= pushed);
        while self.signatures.len() > self.window
            invariant
                0 <= dropped <= pushed.len(),
                self.deep_view().signatures == pushed.skip(dropped),
                self.window == old(self).window,
                self.max_repeats == old(self).max_repeats,
                dropped > 0 ==> pushed.len() - dropped >= self.window,
                self.deep_view().signatures.len() == self.signatures@.len(),
            decreases self.signatures@.len(),
        {
            let ghost before = self.deep_view().signatures;
            let _ = self.signatures.pop_front();
            assert(self.deep_view().signatures =~= before.drop_first());
            assert(before.drop_first() =~= pushed.skip(dropped + 1));
            proof {
                dropped = dropped + 1;
            }
        }
    }

    /// The recurring signature and its count, if the window shows a loop.
    pub fn detect(&self) -> (r: Option<(String, usize)>)
        ensures
            match r {
                Some((signature, count)) => detected(self.deep_view()) == Some(
                    (signature@, count as nat),
                ),
                None => detected(self.deep_view()) is None,
            },
    {
        let ghost all = self.deep_view().signatures;
        if self.signatures.len() < self.window {
            return None;
        }
        let n: usize = self.signatures.len();
        let mut i: usize = 0;
        while i < n
            invariant
                i <= n == self.signatures@.len(),
                n == all.len(),
                all == self.deep_view().signatures,
                excess(all.take(i as int), self.max_repeats as nat) is None,
                self.deep_view().signatures.len() >= self.deep_view().window,
                self.deep_view().max_repeats == self.max_repeats,
            decreases n - i,
        {
            let signature = &self.signatures[i];
            assert(all[i as int] == signature@);
            let mut count: usize = 0;
            let mut k: usize = 0;
            while k <= i
                invariant
                    i < n == self.signatures@.len(),
                    n == all.len(),
                    all == self.deep_view().signatures,
                    k <= i + 1,
                    count <= k,
                    count == count_of(all.take(k as int), signature@),
                decreases i + 1 - k,
            {
                assert(all.take(k + 1).drop_last() =~= all.take(k as int));
                assert(all.take(k + 1).last() == self.signatures@[k as int]@);
                if same(&self.signatures[k], signature) {
                    count = count + 1;
                }
                k += 1;
            }
            assert(all.take(i + 1).drop_last() =~= all.take(i as int));
            assert(all.take(i + 1).last() == signature@);
            if count > self.max_repeats {
                proof {
                    lemma_excess_stays(all, i + 1, self.max_repeats as nat);
                }
                return Some((signature.clone(), count));
            }
            i += 1;
        }
        assert(all.take(i as int) =~= all);
        None
    }

    /// Forgets every step.
    pub fn reset(&mut self)
        ensures
            final(self).deep_view() == (GuardModel {
                signatures: Seq::empty(),
                ..old(self).deep_view()
            }),
    {
        self.signatures.clear();
        assert(self.deep_view().signatures =~= Seq::<Seq<char>>::empty());
    }
}

proof fn lemma_excess_stays(all: Seq<Seq<char>>, n: int, max_repeats: nat)
    requires
        0 <= n <= all.len(),
        excess(all.take(n), max_repeats) is Some,
    ensures
        excess(all, max_repeats) == excess(all.take(n), max_repeats),
    decreases all.len() - n,
{
    if n < all.len() {
        assert(all.take(n + 1).drop_last() =~= all.take(n));
        lemma_excess_stays(all, n + 1, max_repeats);
    } else {
        assert(all.take(n) =~= all);
    }
}

/// Order-independent digest of a step's tool interactions.
pub fn signature_of(interactions: &[(String, String, String)]) -> (r: String)
    ensures
        r@ == signature_text(interactions.deep_view()),
{
    let ghost step = interactions.deep_view();
    let mut parts: Vec<String> = Vec::new();
    let mut i: usize = 0;
    while i < interactions.len()
        invariant
            i <= interactions@.len(),
            step == interactions.deep_view(),
            parts.deep_view() == interaction_texts(step).take(i as int),
        decreases interactions@.len() - i,
    {
        let ghost before = parts.deep_view();
        let mut text = interactions[i].0.clone();
        text.push_str("\u{0}");
        text.push_str(&interactions[i].1);
        text.push_str("\u{0}");
        text.push_str(&interactions[i].2);
        assert(step[i as int] == interactions@[i as int].deep_view());
        assert(text@ == interaction_text(step[i as int]));
        parts.push(text);
        assert(parts.deep_view() =~= before.push(text@));
        assert(parts.deep_view() =~= interaction_texts(step).take(i + 1));
        i += 1;
    }
    assert(interaction_texts(step).take(i as int) =~= interaction_texts(step));
    let joined = join(&sort_texts(parts), "\u{1}");
    let bytes = joined.as_str().as_bytes();
    let mut hash: u64 = 0xcbf2_9ce4_8422_2325;
    let mut k: usize = 0;
    while k < bytes.len()
        invariant
            k <= bytes@.len(),
            hash == fnv(bytes@.take(k as int)),
        decreases bytes@.len() - k,
    {
        assert(bytes@.take(k + 1).drop_last() =~= bytes@.take(k as int));
        hash = (hash ^ (bytes[k] as u64)).wrapping_mul(0x100_0000_01b3);
        k += 1;
    }
    assert(bytes@.take(k as int) =~= bytes@);
    hex(hash, 16)
}

/// Two steps with the same interactions in another order are the same step.
pub proof fn law_call_order_does_not_matter(
    a: Seq<(Seq<char>, Seq<char>, Seq<char>)>,
    b: Seq<(Seq<char>, Seq<char>, Seq<char>)>,
)
    requires
        interaction_texts(a).to_multiset() == interaction_texts(b).to_multiset(),
    ensures
        signature_text(a) == signature_text(b),
{
    law_sorting_forgets_order(interaction_texts(a), interaction_texts(b));
}

/// The window never holds more than its size, and detection stays quiet until it
/// is full.
pub proof fn law_window_is_bounded(signatures: Seq<Seq<char>>, window: nat)
    ensures
        last_of(signatures, window).len() <= window,
        forall|max: nat|
            signatures.len() < window ==> #[trigger] detected(
                GuardModel { window, max_repeats: max, signatures },
            ) is None,
{
}

proof fn lemma_count_bound(signatures: Seq<Seq<char>>, s: Seq<char>)
    ensures
        count_of(signatures, s) <= signatures.len(),
    decreases signatures.len(),
{
    if signatures.len() > 0 {
        lemma_count_bound(signatures.drop_last(), s);
    }
}

/// A full window is a loop exactly when some signature occurs in it more than the
/// permitted number of times; the count reported is one more than permitted.
pub proof fn law_detection(guard: GuardModel)
    requires
        guard.signatures.len() >= guard.window,
    ensures
        detected(guard) is Some <==> exists|s: Seq<char>| #[trigger]
            count_of(guard.signatures, s) > guard.max_repeats,
        detected(guard) matches Some((s, n)) ==> n == guard.max_repeats + 1 && count_of(
            guard.signatures,
            s,
        ) >= n,
{
    lemma_excess(guard.signatures, guard.max_repeats);
}

proof fn lemma_excess(signatures: Seq<Seq<char>>, max: nat)
    ensures
        excess(signatures, max) is Some <==> exists|s: Seq<char>| #[trigger]
            count_of(signatures, s) > max,
        excess(signatures, max) matches Some((s, n)) ==> n == max + 1 && count_of(signatures, s)
            >= n,
    decreases signatures.len(),
{
    if signatures.len() > 0 {
        let rest = signatures.drop_last();
        let last = signatures.last();
        lemma_excess(rest, max);
        if excess(rest, max) is Some {
            let (s, n) = excess(rest, max)->0;
            assert(count_of(signatures, s) > max);
        } else {
            assert(!(count_of(rest, last) > max));
            if exists|s: Seq<char>| #[trigger] count_of(signatures, s) > max {
                let s = choose|s: Seq<char>| #[trigger] count_of(signatures, s) > max;
                assert(!(count_of(rest, s) > max));
            }
        }
    } else {
        assert forall|s: Seq<char>| !(#[trigger] count_of(signatures, s) > max) by {}
    }
}

/// The newest signature is kept, and as many before it as the window has room for, in
/// their order.
pub proof fn law_the_newest_are_kept(signatures: Seq<Seq<char>>, newest: Seq<char>, window: nat)
    ensures
        ({
            let all = signatures.push(newest);
            let kept = last_of(all, window);
            &&& window > 0 ==> kept.len() > 0 && kept.last() == newest
            &&& all.len() <= window ==> kept == all
            &&& all.len() > window ==> kept.len() == window
            &&& exists|dropped: Seq<Seq<char>>| #[trigger] (dropped + kept) == all
        }),
{
    let all = signatures.push(newest);
    let kept = last_of(all, window);
    let dropped = all.take(all.len() - kept.len());
    assert(dropped + kept =~= all);
}

/// A signature occurs in two runs as often as in the one and in the other.
pub proof fn law_occurrences_add_up(a: Seq<Seq<char>>, b: Seq<Seq<char>>, s: Seq<char>)
    ensures
        count_of(a + b, s) == count_of(a, s) + count_of(b, s),
        count_of(seq![s], s) == 1,
        forall|other: Seq<char>| other != s ==> #[trigger] count_of(seq![other], s) == 0,
    decreases b.len(),
{
    reveal_with_fuel(count_of, 2);
    assert(seq![s].drop_last() =~= Seq::<Seq<char>>::empty());
    assert forall|other: Seq<char>| other != s implies #[trigger] count_of(seq![other], s) == 0 by {
        assert(seq![other].drop_last() =~= Seq::<Seq<char>>::empty());
    }
    if b.len() == 0 {
        assert(a + b =~= a);
    } else {
        law_occurrences_add_up(a, b.drop_last(), s);
        assert((a + b).drop_last() =~= a + b.drop_last());
        assert((a + b).last() == b.last());
    }
}

/// Every interaction of a step goes into its signature, by its tool, its input and its
/// outcome: the signature is made of a text that joins them all, put in order.
pub proof fn law_every_interaction_counts(step: Seq<(Seq<char>, Seq<char>, Seq<char>)>)
    ensures
        exists|texts: Seq<Seq<char>>|
            {
                &&& in_order(texts, text_key())
                &&& texts.to_multiset() == step.map_values(
                    |t: (Seq<char>, Seq<char>, Seq<char>)|
                        t.0 + "\u{0}"@ + t.1 + "\u{0}"@ + t.2,
                ).to_multiset()
                &&& signature_text(step) == hex_of(
                    fnv(vstd::utf8::encode_utf8(#[trigger] join_of(texts, "\u{1}"@))) as nat,
                    16,
                )
            },
{
    let given = interaction_texts(step);
    assert(given =~= step.map_values(
        |t: (Seq<char>, Seq<char>, Seq<char>)| t.0 + "\u{0}"@ + t.1 + "\u{0}"@ + t.2,
    ));
    let texts = sorted_by_key(given, text_key());
    law_sorting(given, text_key());
    assert(join_of(texts, "\u{1}"@) == join_of(texts, "\u{1}"@));
}

proof fn lemma_factor_is_invertible(h: u64)
    ensures
        ((h * 0x100_0000_01b3int) % 0x1_0000_0000_0000_0000int * 0xce96_5057_aff6_957bint)
            % 0x1_0000_0000_0000_0000int == h,
{
    let all = 0x1_0000_0000_0000_0000int;
    let factor = 0x100_0000_01b3int;
    let back = 0xce96_5057_aff6_957bint;
    vstd::arithmetic::div_mod::lemma_mul_mod_noop_left(h * factor, back, all);
    vstd::arithmetic::mul::lemma_mul_is_associative(h as int, factor, back);
    let turns = (factor * back) / all;
    assert(factor * back == turns * all + 1);
    assert(h * (turns * all + 1) == (h * turns) * all + h) by (nonlinear_arith);
    vstd::arithmetic::div_mod::lemma_mod_multiples_vanish(h * turns, h as int, all);
    assert(all * (h * turns) + h == (h * turns) * all + h) by (nonlinear_arith)
        requires
            all == 0x1_0000_0000_0000_0000int,
    ;
    vstd::arithmetic::div_mod::lemma_small_mod(h as nat, all as nat);
}

proof fn lemma_steps_differ(g: u64, h: u64, x: u8, y: u8)
    requires
        g != h && x == y || g == h && x != y,
    ensures
        (g ^ (x as u64)).wrapping_mul(0x100_0000_01b3) != (h ^ (y as u64)).wrapping_mul(
            0x100_0000_01b3,
        ),
{
    let a = x as u64;
    let b = y as u64;
    assert(g != h && a == b || g == h && a != b ==> g ^ a != h ^ b) by (bit_vector);
    lemma_factor_is_invertible(g ^ a);
    lemma_factor_is_invertible(h ^ b);
}

/// Every byte of what a step did counts: two runs of bytes that differ in one of them, and
/// in no other, differ in what they come to.
pub proof fn law_every_byte_counts(before: Seq<u8>, x: u8, y: u8, after: Seq<u8>)
    requires
        x != y,
    ensures
        fnv(before + seq![x] + after) != fnv(before + seq![y] + after),
    decreases after.len(),
{
    let a = before + seq![x] + after;
    let b = before + seq![y] + after;
    if after.len() == 0 {
        assert(a.drop_last() =~= before);
        assert(b.drop_last() =~= before);
        lemma_steps_differ(fnv(before), fnv(before), x, y);
    } else {
        let rest = after.drop_last();
        law_every_byte_counts(before, x, y, rest);
        assert(a.drop_last() =~= before + seq![x] + rest);
        assert(b.drop_last() =~= before + seq![y] + rest);
        assert(a.last() == after.last() && b.last() == after.last());
        lemma_steps_differ(fnv(a.drop_last()), fnv(b.drop_last()), after.last(), after.last());
    }
}

} // verus!
