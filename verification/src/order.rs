//! Texts in order, and stable sorting by a text.

use vstd::prelude::*;
use vstd::relations::total_ordering;
use vstd::seq_lib::lemma_sorted_unique;

use crate::text::chars_of;

verus! {

/// Whether `a` comes before `b`, character by character, or is the same.
pub open spec fn text_le(a: Seq<char>, b: Seq<char>) -> bool
    decreases a.len(),
{
    if a.len() == 0 {
        true
    } else if b.len() == 0 {
        false
    } else if a[0] == b[0] {
        text_le(a.drop_first(), b.drop_first())
    } else {
        a[0] < b[0]
    }
}

proof fn lemma_text_total(a: Seq<char>, b: Seq<char>)
    ensures
        text_le(a, a),
        text_le(a, b) || text_le(b, a),
        text_le(a, b) && text_le(b, a) ==> a == b,
    decreases a.len(),
{
    if a.len() > 0 {
        lemma_text_total(a.drop_first(), a.drop_first());
        if b.len() > 0 && a[0] == b[0] {
            lemma_text_total(a.drop_first(), b.drop_first());
            if text_le(a, b) && text_le(b, a) {
                assert(a =~= seq![a[0]] + a.drop_first());
                assert(b =~= seq![b[0]] + b.drop_first());
            }
        }
    } else if b.len() == 0 {
        assert(a =~= b);
    }
}

proof fn lemma_text_transitive(a: Seq<char>, b: Seq<char>, c: Seq<char>)
    requires
        text_le(a, b),
        text_le(b, c),
    ensures
        text_le(a, c),
    decreases a.len(),
{
    if a.len() > 0 && a[0] == b[0] && b[0] == c[0] {
        lemma_text_transitive(a.drop_first(), b.drop_first(), c.drop_first());
    }
}

/// The order of texts as a relation.
pub open spec fn text_order() -> spec_fn(Seq<char>, Seq<char>) -> bool {
    |a: Seq<char>, b: Seq<char>| text_le(a, b)
}

/// Texts are totally ordered.
pub proof fn law_text_order_is_total()
    ensures
        total_ordering(text_order()),
{
    let le = text_order();
    assert forall|a: Seq<char>| #[trigger] le(a, a) by {
        lemma_text_total(a, a);
    }
    assert forall|a: Seq<char>, b: Seq<char>| #[trigger] le(a, b) && #[trigger] le(b, a) implies a
        == b by {
        lemma_text_total(a, b);
    }
    assert forall|a: Seq<char>, b: Seq<char>, c: Seq<char>| #[trigger]
        le(a, b) && #[trigger] le(b, c) implies le(a, c) by {
        lemma_text_transitive(a, b, c);
    }
    assert forall|a: Seq<char>, b: Seq<char>| #[trigger] le(a, b) || #[trigger] le(b, a) by {
        lemma_text_total(a, b);
    }
}

/// Tests [`text_le`].
pub fn precedes(a: &str, b: &str) -> (r: bool)
    ensures
        r == text_le(a@, b@),
{
    let x = chars_of(a);
    let y = chars_of(b);
    let mut i: usize = 0;
    assert(a@.skip(0) =~= a@);
    assert(b@.skip(0) =~= b@);
    while i < x.len()
        invariant
            i <= x@.len(),
            i <= y@.len(),
            x@ == a@,
            y@ == b@,
            text_le(a@, b@) == text_le(a@.skip(i as int), b@.skip(i as int)),
        decreases x@.len() - i,
    {
        if i >= y.len() {
            return false;
        }
        if x[i] != y[i] {
            return x[i] < y[i];
        }
        assert(a@.skip(i as int).drop_first() =~= a@.skip(i + 1));
        assert(b@.skip(i as int).drop_first() =~= b@.skip(i + 1));
        i += 1;
    }
    true
}

/// Where `x` goes in `s`: behind the last item whose key does not come after its.
pub open spec fn place_by<T>(s: Seq<T>, x: T, key: spec_fn(T) -> Seq<char>) -> int
    decreases s.len(),
{
    if s.len() == 0 {
        0
    } else if text_le(key(s.last()), key(x)) {
        s.len() as int
    } else {
        place_by(s.drop_last(), x, key)
    }
}

/// `s` sorted by key; items of the same key keep their order.
pub open spec fn sorted_by_key<T>(s: Seq<T>, key: spec_fn(T) -> Seq<char>) -> Seq<T>
    decreases s.len(),
{
    if s.len() == 0 {
        s
    } else {
        let rest = sorted_by_key(s.drop_last(), key);
        rest.insert(place_by(rest, s.last(), key), s.last())
    }
}

/// Whether the keys of `s` are in order.
pub open spec fn in_order<T>(s: Seq<T>, key: spec_fn(T) -> Seq<char>) -> bool {
    forall|i: int, j: int| 0 <= i < j < s.len() ==> text_le(key(#[trigger] s[i]), key(#[trigger] s[j]))
}

proof fn lemma_place<T>(s: Seq<T>, x: T, key: spec_fn(T) -> Seq<char>)
    requires
        in_order(s, key),
    ensures
        0 <= place_by(s, x, key) <= s.len(),
        forall|i: int| 0 <= i < place_by(s, x, key) ==> text_le(key(#[trigger] s[i]), key(x)),
        forall|i: int|
            place_by(s, x, key) <= i < s.len() ==> !text_le(key(#[trigger] s[i]), key(x)),
    decreases s.len(),
{
    if s.len() > 0 {
        if text_le(key(s.last()), key(x)) {
            assert forall|i: int| 0 <= i < s.len() implies text_le(key(#[trigger] s[i]), key(x)) by {
                if i < s.len() - 1 {
                    assert(text_le(key(s[i]), key(s[s.len() - 1])));
                    lemma_text_transitive(key(s[i]), key(s.last()), key(x));
                }
            }
        } else {
            lemma_place(s.drop_last(), x, key);
            let p = place_by(s, x, key);
            assert forall|i: int| p <= i < s.len() implies !text_le(key(#[trigger] s[i]), key(x)) by {
                if i < s.len() - 1 {
                    assert(s.drop_last()[i] == s[i]);
                }
            }
            assert forall|i: int| 0 <= i < p implies text_le(key(#[trigger] s[i]), key(x)) by {
                assert(s.drop_last()[i] == s[i]);
            }
        }
    }
}

/// Sorting puts the keys in order and neither loses nor adds an item.
pub proof fn law_sorting<T>(s: Seq<T>, key: spec_fn(T) -> Seq<char>)
    ensures
        in_order(sorted_by_key(s, key), key),
        sorted_by_key(s, key).len() == s.len(),
        sorted_by_key(s, key).to_multiset() == s.to_multiset(),
    decreases s.len(),
{
    if s.len() > 0 {
        let rest = sorted_by_key(s.drop_last(), key);
        let x = s.last();
        law_sorting(s.drop_last(), key);
        lemma_place(rest, x, key);
        let p = place_by(rest, x, key);
        let all = rest.insert(p, x);
        rest.insert_ensures(p, x);
        assert forall|i: int, j: int| 0 <= i < j < all.len() implies text_le(
            key(#[trigger] all[i]),
            key(#[trigger] all[j]),
        ) by {
            if i == p {
                assert(all[j] == rest[j - 1]);
                lemma_text_total(key(rest[j - 1]), key(x));
            } else if j == p {
                assert(all[i] == rest[i]);
            } else {
                let a = if i < p {
                    i
                } else {
                    i - 1
                };
                let b = if j < p {
                    j
                } else {
                    j - 1
                };
                assert(all[i] == rest[a]);
                assert(all[j] == rest[b]);
            }
        }
        vstd::seq_lib::to_multiset_insert(rest, p, x);
        assert(s =~= s.drop_last().push(x));
        vstd::seq_lib::to_multiset_build(s.drop_last(), x);
    } else {
        assert(sorted_by_key(s, key) == s);
    }
}

/// What is in order already stays as it is.
pub proof fn law_sorting_keeps_order<T>(s: Seq<T>, key: spec_fn(T) -> Seq<char>)
    requires
        in_order(s, key),
    ensures
        sorted_by_key(s, key) == s,
    decreases s.len(),
{
    if s.len() > 0 {
        assert forall|i: int, j: int| 0 <= i < j < s.drop_last().len() implies text_le(
            key(#[trigger] s.drop_last()[i]),
            key(#[trigger] s.drop_last()[j]),
        ) by {
            assert(text_le(key(s[i]), key(s[j])));
        }
        law_sorting_keeps_order(s.drop_last(), key);
        let rest = s.drop_last();
        if rest.len() > 0 {
            assert(text_le(key(s[s.len() - 2]), key(s[s.len() - 1])));
            assert(rest.last() == s[s.len() - 2]);
        }
        assert(rest.insert(rest.len() as int, s.last()) =~= s);
    }
}

/// The key of a text is itself.
pub open spec fn text_key() -> spec_fn(Seq<char>) -> Seq<char> {
    |s: Seq<char>| s
}

/// The order in which texts are given does not matter to their sorted form.
pub proof fn law_sorting_forgets_order(a: Seq<Seq<char>>, b: Seq<Seq<char>>)
    requires
        a.to_multiset() == b.to_multiset(),
    ensures
        sorted_by_key(a, text_key()) == sorted_by_key(b, text_key()),
{
    let key = text_key();
    let x = sorted_by_key(a, key);
    let y = sorted_by_key(b, key);
    law_sorting(a, key);
    law_sorting(b, key);
    law_text_order_is_total();
    let le = text_order();
    assert forall|i: int, j: int| 0 <= i < j < x.len() implies #[trigger] le(x[i], x[j]) by {
        assert(text_le(key(x[i]), key(x[j])));
    }
    assert forall|i: int, j: int| 0 <= i < j < y.len() implies #[trigger] le(y[i], y[j]) by {
        assert(text_le(key(y[i]), key(y[j])));
    }
    lemma_sorted_unique(x, y, le);
}

/// Sorting by key commutes with a map that keeps the key.
pub proof fn lemma_sorted_map<T, U>(
    s: Seq<T>,
    f: spec_fn(T) -> U,
    key: spec_fn(T) -> Seq<char>,
    other: spec_fn(U) -> Seq<char>,
)
    requires
        forall|t: T| other(#[trigger] f(t)) == key(t),
    ensures
        sorted_by_key(s, key).map_values(f) == sorted_by_key(s.map_values(f), other),
        sorted_by_key(s, key).len() == s.len(),
    decreases s.len(),
{
    if s.len() > 0 {
        let rest = sorted_by_key(s.drop_last(), key);
        lemma_sorted_map(s.drop_last(), f, key, other);
        assert(s.map_values(f).drop_last() =~= s.drop_last().map_values(f));
        lemma_place_map(rest, s.last(), f, key, other);
        law_sorting(s.drop_last(), key);
        lemma_place(rest, s.last(), key);
        let p = place_by(rest, s.last(), key);
        assert(rest.insert(p, s.last()).map_values(f) =~= rest.map_values(f).insert(
            p,
            f(s.last()),
        ));
    } else {
        assert(sorted_by_key(s, key).map_values(f) =~= s.map_values(f));
    }
}

proof fn lemma_place_map<T, U>(
    s: Seq<T>,
    x: T,
    f: spec_fn(T) -> U,
    key: spec_fn(T) -> Seq<char>,
    other: spec_fn(U) -> Seq<char>,
)
    requires
        forall|t: T| other(#[trigger] f(t)) == key(t),
    ensures
        place_by(s, x, key) == place_by(s.map_values(f), f(x), other),
    decreases s.len(),
{
    if s.len() > 0 {
        assert(s.map_values(f).drop_last() =~= s.drop_last().map_values(f));
        assert(s.map_values(f).last() == f(s.last()));
        lemma_place_map(s.drop_last(), x, f, key, other);
    }
}

/// Something that is sorted by a text.
pub trait Keyed: Sized {
    /// The text it is sorted by.
    spec fn key_of(&self) -> Seq<char>;

    /// That text.
    fn key(&self) -> (r: &str)
        ensures
            r@ == self.key_of(),
    ;
}

/// The key of an item as a function.
pub open spec fn key_fn<T: Keyed>() -> spec_fn(T) -> Seq<char> {
    |t: T| t.key_of()
}

impl Keyed for String {
    open spec fn key_of(&self) -> Seq<char> {
        self@
    }

    fn key(&self) -> (r: &str) {
        self.as_str()
    }
}

/// Sorts by key; items of the same key keep their order.
pub fn sort<T: Keyed>(items: Vec<T>) -> (r: Vec<T>)
    ensures
        r@ == sorted_by_key(items@, key_fn::<T>()),
{
    let ghost all = items@;
    let ghost key = key_fn::<T>();
    let mut rest = items;
    let mut out: Vec<T> = Vec::new();
    let ghost mut done: int = 0;
    assert(all.take(0) =~= Seq::<T>::empty());
    assert(all.skip(0) =~= all);
    while rest.len() > 0
        invariant
            0 <= done <= all.len(),
            rest@ == all.skip(done),
            key == key_fn::<T>(),
            out@ == sorted_by_key(all.take(done), key),
        decreases rest@.len(),
    {
        let item = rest.remove(0);
        assert(rest@ =~= all.skip(done + 1));
        assert(item == all[done]);
        let mut at: usize = out.len();
        assert(out@.take(at as int) =~= out@);
        while at > 0 && !precedes(out[at - 1].key(), item.key())
            invariant
                at <= out@.len(),
                key == key_fn::<T>(),
                place_by(out@, item, key) == place_by(out@.take(at as int), item, key),
            decreases at,
        {
            assert(out@.take(at as int).drop_last() =~= out@.take(at - 1));
            assert(out@.take(at as int).last() == out@[at - 1]);
            assert(key(out@[at - 1]) == out@[at - 1].key_of());
            assert(key(item) == item.key_of());
            at -= 1;
        }
        assert(key(item) == item.key_of());
        if at > 0 {
            assert(out@.take(at as int).last() == out@[at - 1]);
            assert(key(out@[at - 1]) == out@[at - 1].key_of());
        }
        assert(place_by(out@, item, key) == at);
        assert(all.take(done + 1).drop_last() =~= all.take(done));
        assert(all.take(done + 1).last() == item);
        out.insert(at, item);
        proof {
            done = done + 1;
        }
    }
    assert(all.take(done) =~= all);
    out
}

/// Sorts texts.
pub fn sort_texts(texts: Vec<String>) -> (r: Vec<String>)
    ensures
        r.deep_view() == sorted_by_key(texts.deep_view(), text_key()),
{
    let ghost before = texts@;
    let r = sort(texts);
    proof {
        let f = |s: String| s@;
        assert forall|t: String| text_key()(#[trigger] f(t)) == key_fn::<String>()(t) by {}
        lemma_sorted_map(before, f, key_fn::<String>(), text_key());
        assert(before.map_values(f) =~= texts.deep_view());
        assert(r@.map_values(f) =~= r.deep_view());
    }
    r
}

/// Texts are in order by the first character in which they differ, the smaller first; one
/// that the other begins with comes before it.
pub proof fn law_the_first_difference_decides(
    start: Seq<char>,
    a: char,
    rest: Seq<char>,
    b: char,
    other: Seq<char>,
)
    ensures
        a != b ==> (text_le(start + seq![a] + rest, start + seq![b] + other) <==> a < b),
        text_le(start, start + rest),
        rest.len() > 0 ==> !text_le(start + rest, start),
    decreases start.len(),
{
    let x = start + seq![a] + rest;
    let y = start + seq![b] + other;
    let longer = start + rest;
    if start.len() == 0 {
        assert(x[0] == a && y[0] == b);
    } else {
        let tail = start.drop_first();
        law_the_first_difference_decides(tail, a, rest, b, other);
        assert(x[0] == start[0] && y[0] == start[0] && longer[0] == start[0]);
        assert(x.drop_first() =~= tail + seq![a] + rest);
        assert(y.drop_first() =~= tail + seq![b] + other);
        assert(longer.drop_first() =~= tail + rest);
    }
}

} // verus!
