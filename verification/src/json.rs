//! JSON text: what `serde_json` says of it and how it writes a string.

use vstd::prelude::*;

use crate::text::hex_of;

verus! {

/// What `serde_json` says is wrong with a text, if it is no JSON.
pub uninterp spec fn json_failure(text: Seq<char>) -> Option<Seq<char>>;

/// Calls `serde_json::from_str` for a `serde_json::Value`: nothing where the text is
/// JSON, and the error's message where it is not. Both depend on the text alone.
#[verifier::external_body]
pub(crate) fn failure(text: &str) -> (r: Option<String>)
    ensures
        crate::text::text_of(r) == json_failure(text@),
{
    serde_json::from_str::<serde_json::Value>(text).err().map(|error| error.to_string())
}

/// How a character is written inside a JSON string: a quote, a backslash and the
/// characters below the space are escaped, those without a letter of their own by
/// their number; every other character stands as it is.
pub open spec fn json_escape(c: char) -> Seq<char> {
    if c == '"' || c == '\\' {
        seq!['\\', c]
    } else if c == '\u{8}' {
        seq!['\\', 'b']
    } else if c == '\u{c}' {
        seq!['\\', 'f']
    } else if c == '\n' {
        seq!['\\', 'n']
    } else if c == '\r' {
        seq!['\\', 'r']
    } else if c == '\t' {
        seq!['\\', 't']
    } else if (c as u32) < 32 {
        seq!['\\', 'u'] + hex_of(c as nat, 4)
    } else {
        seq![c]
    }
}

/// A text as it is written inside a JSON string.
pub open spec fn json_escaped(text: Seq<char>) -> Seq<char>
    decreases text.len(),
{
    if text.len() == 0 {
        Seq::empty()
    } else {
        json_escaped(text.drop_last()) + json_escape(text.last())
    }
}

/// A text as a JSON string: escaped, between quotes.
pub open spec fn json_string(text: Seq<char>) -> Seq<char> {
    seq!['"'] + json_escaped(text) + seq!['"']
}

/// Writes a `serde_json::Value` that holds the string, with its `Display`: quoted,
/// and escaped by `serde_json`'s table, the two hexadecimal digits in lower case.
#[verifier::external_body]
pub(crate) fn string(text: &str) -> (r: String)
    ensures
        r@ == json_string(text@),
{
    serde_json::Value::String(text.to_owned()).to_string()
}

/// The number that a JSON object holds under a key, if the text is JSON, holds an
/// object with that key, and has a `u64` there.
pub uninterp spec fn json_number(text: Seq<char>, key: Seq<char>) -> Option<u64>;

/// Calls `serde_json::from_str` for a `serde_json::Value`, then its `get` and `as_u64`:
/// nothing where any of them finds nothing. What is found depends on the text and the
/// key alone.
#[verifier::external_body]
pub(crate) fn number(text: &str, key: &str) -> (r: Option<u64>)
    ensures
        r == json_number(text@, key@),
{
    serde_json::from_str::<serde_json::Value>(text).ok()?.get(key)?.as_u64()
}

/// Strings as the elements of a JSON array, without its brackets.
pub open spec fn json_strings(texts: Seq<Seq<char>>) -> Seq<char>
    decreases texts.len(),
{
    if texts.len() == 0 {
        Seq::empty()
    } else if texts.len() == 1 {
        json_string(texts[0])
    } else {
        json_strings(texts.drop_last()) + ","@ + json_string(texts.last())
    }
}

/// Writes strings as the elements of a JSON array.
pub fn strings(texts: &Vec<String>) -> (r: String)
    ensures
        r@ == json_strings(texts.deep_view()),
{
    let ghost all = texts.deep_view();
    let mut out = String::new();
    let mut i: usize = 0;
    assert(out@ =~= Seq::<char>::empty());
    while i < texts.len()
        invariant
            i <= texts@.len(),
            all == texts.deep_view(),
            out@ == json_strings(all.take(i as int)),
        decreases texts@.len() - i,
    {
        assert(all.take(i + 1).drop_last() =~= all.take(i as int));
        assert(all.take(i + 1).last() == texts@[i as int]@);
        if i > 0 {
            out.push_str(",");
        } else {
            assert(Seq::<char>::empty() + json_string(all[0]) =~= json_string(all[0]));
        }
        out.push_str(&string(&texts[i]));
        i += 1;
    }
    assert(all.take(i as int) =~= all);
    out
}

} // verus!
