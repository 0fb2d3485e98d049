//! Text as a sequence of characters: the string operations the rest of the
//! library is written in, each stated over `Seq<char>`.

use vstd::prelude::*;

verus! {

/// `String::push` appends one character to the end of the string.
pub assume_specification[ String::push ](s: &mut String, c: char)
    ensures
        final(s)@ == old(s)@.push(c),
;

/// `String::push_str` appends the whole of `t` to the end of the string.
pub assume_specification[ String::push_str ](s: &mut String, t: &str)
    ensures
        final(s)@ == old(s)@ + t@,
;

/// Whether every character of a text is ASCII.
pub open spec fn is_ascii_text(s: Seq<char>) -> bool {
    forall|i: int| 0 <= i < s.len() ==> (#[trigger] s[i]) <= '\u{7f}'
}

/// The lower-case letter of an ASCII letter; every other character as it is.
pub open spec fn ascii_lower(c: char) -> char {
    if 'A' <= c && c <= 'Z' {
        (c as u8 + 32) as char
    } else {
        c
    }
}

/// A text with its ASCII letters in lower case.
pub open spec fn ascii_lowercase_of(s: Seq<char>) -> Seq<char> {
    s.map_values(|c: char| ascii_lower(c))
}

/// What `str::to_lowercase` returns for a text that is not all ASCII.
pub uninterp spec fn unicode_lowercase_of(s: Seq<char>) -> Seq<char>;

/// A text in lower case.
pub open spec fn lowercase_of(s: Seq<char>) -> Seq<char> {
    if is_ascii_text(s) {
        ascii_lowercase_of(s)
    } else {
        unicode_lowercase_of(s)
    }
}

/// Calls `str::to_lowercase`. Of a text that is all ASCII, each letter from `A` to `Z`
/// becomes its lower-case letter and the rest stays; of any other, the result depends
/// on the characters alone.
#[verifier::external_body]
pub(crate) fn lowercase(s: &str) -> (r: String)
    ensures
        is_ascii_text(s@) ==> r@ == ascii_lowercase_of(s@),
        !is_ascii_text(s@) ==> r@ == unicode_lowercase_of(s@),
{
    s.to_lowercase()
}

/// Puts the ASCII letters of a text in lower case.
pub fn ascii_lowercase(s: &str) -> (r: String)
    ensures
        r@ == ascii_lowercase_of(s@),
{
    let chars = chars_of(s);
    let mut r = String::new();
    let mut i: usize = 0;
    while i < chars.len()
        invariant
            i <= chars@.len(),
            chars@ == s@,
            r@ == ascii_lowercase_of(s@.take(i as int)),
        decreases chars@.len() - i,
    {
        let c = chars[i];
        if 'A' <= c && c <= 'Z' {
            let lower: u8 = c as u8 + 32;
            r.push(lower as char);
        } else {
            r.push(c);
        }
        assert(ascii_lowercase_of(s@.take(i + 1)) =~= ascii_lowercase_of(s@.take(i as int)).push(
            ascii_lower(c),
        ));
        i += 1;
    }
    assert(s@.take(i as int) =~= s@);
    r
}

/// What the `{:?}` form of a string is.
pub uninterp spec fn quoted_of(s: Seq<char>) -> Seq<char>;

/// Formats with `str`'s `Debug`, which quotes the string and escapes what does
/// not print; its result depends on the characters alone.
#[verifier::external_body]
pub(crate) fn quoted(s: &str) -> (r: String)
    ensures
        r@ == quoted_of(s@),
{
    format!("{s:?}")
}

/// The characters of a string.
pub fn chars_of(s: &str) -> (r: Vec<char>)
    ensures
        r@ == s@,
{
    let mut r: Vec<char> = Vec::new();
    for c in it: s.chars()
        invariant
            r@ == it.seq().take(it.index() as int),
            it.seq() == s@,
    {
        r.push(c);
    }
    r
}

/// Whether a string is among `list`.
pub fn among(list: &Vec<String>, s: &str) -> (r: bool)
    ensures
        r == list.deep_view().contains(s@),
{
    let mut i: usize = 0;
    while i < list.len()
        invariant
            i <= list@.len(),
            forall|k: int| 0 <= k < i ==> #[trigger] list.deep_view()[k] != s@,
        decreases list@.len() - i,
    {
        assert(list.deep_view()[i as int] == list@[i as int]@);
        if same(&list[i], s) {
            return true;
        }
        i += 1;
    }
    false
}

/// A copy of a list of strings.
pub fn copy_texts(list: &Vec<String>) -> (r: Vec<String>)
    ensures
        r.deep_view() == list.deep_view(),
{
    let r = list.clone();
    assert(r.deep_view() =~= list.deep_view());
    r
}

/// The text an optional string holds.
pub open spec fn text_of(s: Option<String>) -> Option<Seq<char>> {
    match s {
        Some(text) => Some(text@),
        None => None,
    }
}

/// How many bytes a text takes in UTF-8.
pub open spec fn bytes_of(s: Seq<char>) -> nat {
    vstd::utf8::encode_utf8(s).len()
}

/// Counts the bytes of a string.
pub fn byte_len(s: &str) -> (r: usize)
    ensures
        r == bytes_of(s@),
{
    s.as_bytes().len()
}

/// Whether two strings hold the same characters.
pub fn same(a: &str, b: &str) -> (r: bool)
    ensures
        r == (a@ == b@),
{
    a.to_owned() == b.to_owned()
}

/// The string that holds the characters `from..to` of `chars`.
pub fn slice_of(chars: &Vec<char>, from: usize, to: usize) -> (r: String)
    requires
        from <= to <= chars@.len(),
    ensures
        r@ == chars@.subrange(from as int, to as int),
{
    let mut r = String::new();
    let mut i: usize = from;
    while i < to
        invariant
            from <= i <= to <= chars@.len(),
            r@ == chars@.subrange(from as int, i as int),
        decreases to - i,
    {
        r.push(chars[i]);
        i += 1;
    }
    r
}

/// Whether a character is white space: the Unicode `White_Space` property.
pub open spec fn is_white(c: char) -> bool {
    let v = c as u32;
    ||| 0x09 <= v <= 0x0d
    ||| v == 0x20
    ||| v == 0x85
    ||| v == 0xa0
    ||| v == 0x1680
    ||| 0x2000 <= v <= 0x200a
    ||| v == 0x2028
    ||| v == 0x2029
    ||| v == 0x202f
    ||| v == 0x205f
    ||| v == 0x3000
}

/// Tests [`is_white`].
pub fn white(c: char) -> (r: bool)
    ensures
        r == is_white(c),
{
    let v: u32 = c as u32;
    (0x09 <= v && v <= 0x0d) || v == 0x20 || v == 0x85 || v == 0xa0 || v == 0x1680 || (0x2000 <= v
        && v <= 0x200a) || v == 0x2028 || v == 0x2029 || v == 0x202f || v == 0x205f || v == 0x3000
}

/// `s` without its leading white space.
pub open spec fn trim_start_of(s: Seq<char>) -> Seq<char>
    decreases s.len(),
{
    if s.len() > 0 && is_white(s[0]) {
        trim_start_of(s.drop_first())
    } else {
        s
    }
}

/// `s` without its trailing white space.
pub open spec fn trim_end_of(s: Seq<char>) -> Seq<char>
    decreases s.len(),
{
    if s.len() > 0 && is_white(s.last()) {
        trim_end_of(s.drop_last())
    } else {
        s
    }
}

/// `s` without white space at either end.
pub open spec fn trim_of(s: Seq<char>) -> Seq<char> {
    trim_end_of(trim_start_of(s))
}

/// Trimming gives back a stretch of the text.
pub proof fn lemma_trim_start_suffix(s: Seq<char>)
    ensures
        trim_start_of(s).len() <= s.len(),
        trim_start_of(s) == s.skip(s.len() - trim_start_of(s).len()),
        trim_start_of(s).len() > 0 ==> !is_white(trim_start_of(s)[0]),
    decreases s.len(),
{
    if s.len() > 0 && is_white(s[0]) {
        lemma_trim_start_suffix(s.drop_first());
        let t = trim_start_of(s.drop_first());
        assert(s.drop_first().skip(s.drop_first().len() - t.len()) =~= s.skip(s.len() - t.len()));
    } else {
        assert(s.skip(0) =~= s);
    }
}

/// `s` without white space at either end.
pub fn trim(s: &str) -> (r: String)
    ensures
        r@ == trim_of(s@),
{
    let chars = chars_of(s);
    let mut from: usize = 0;
    assert(s@.skip(0) =~= s@);
    while from < chars.len() && white(chars[from])
        invariant
            from <= chars@.len(),
            chars@ == s@,
            trim_start_of(s@) == trim_start_of(s@.skip(from as int)),
        decreases chars@.len() - from,
    {
        assert(s@.skip(from as int).drop_first() =~= s@.skip(from + 1));
        from += 1;
    }
    let mut to: usize = chars.len();
    assert(s@.skip(from as int) =~= s@.subrange(from as int, to as int));
    assert(trim_start_of(s@) == s@.subrange(from as int, to as int));
    while from < to && white(chars[to - 1])
        invariant
            from <= to <= chars@.len(),
            chars@ == s@,
            trim_of(s@) == trim_end_of(s@.subrange(from as int, to as int)),
        decreases to,
    {
        assert(s@.subrange(from as int, to as int).drop_last() =~= s@.subrange(
            from as int,
            to - 1,
        ));
        to -= 1;
    }
    slice_of(&chars, from, to)
}

/// `s` without its trailing white space.
pub fn trim_end(s: &str) -> (r: String)
    ensures
        r@ == trim_end_of(s@),
{
    let chars = chars_of(s);
    let mut to: usize = chars.len();
    assert(s@.take(to as int) =~= s@);
    while to > 0 && white(chars[to - 1])
        invariant
            to <= chars@.len(),
            chars@ == s@,
            trim_end_of(s@) == trim_end_of(s@.take(to as int)),
        decreases to,
    {
        assert(s@.take(to as int).drop_last() =~= s@.take(to - 1));
        to -= 1;
    }
    let r = slice_of(&chars, 0, to);
    assert(r@ =~= s@.take(to as int));
    r
}

/// `s` without its leading white space.
pub fn trim_start(s: &str) -> (r: String)
    ensures
        r@ == trim_start_of(s@),
{
    let chars = chars_of(s);
    let mut from: usize = 0;
    assert(s@.skip(0) =~= s@);
    while from < chars.len() && white(chars[from])
        invariant
            from <= chars@.len(),
            chars@ == s@,
            trim_start_of(s@) == trim_start_of(s@.skip(from as int)),
        decreases chars@.len() - from,
    {
        assert(s@.skip(from as int).drop_first() =~= s@.skip(from + 1));
        from += 1;
    }
    let r = slice_of(&chars, from, chars.len());
    assert(r@ =~= s@.skip(from as int));
    r
}

/// Where `c` first stands in `s`, or the length of `s` if it is nowhere in it.
pub open spec fn find_of(s: Seq<char>, c: char) -> int
    decreases s.len(),
{
    if s.len() == 0 || s[0] == c {
        0
    } else {
        1 + find_of(s.drop_first(), c)
    }
}

/// [`find_of`] is the first position of `c`.
pub proof fn lemma_find(s: Seq<char>, c: char)
    ensures
        0 <= find_of(s, c) <= s.len(),
        find_of(s, c) < s.len() ==> s[find_of(s, c)] == c,
        forall|i: int| 0 <= i < find_of(s, c) ==> s[i] != c,
    decreases s.len(),
{
    if s.len() > 0 && s[0] != c {
        lemma_find(s.drop_first(), c);
        let n = find_of(s.drop_first(), c);
        assert forall|i: int| 0 <= i < 1 + n implies s[i] != c by {
            if i > 0 {
                assert(s[i] == s.drop_first()[i - 1]);
            }
        }
    }
}

/// A position at which `c` stands, with none before it, is [`find_of`].
pub proof fn lemma_find_unique(s: Seq<char>, c: char, n: int)
    requires
        0 <= n <= s.len(),
        n < s.len() ==> s[n] == c,
        forall|i: int| 0 <= i < n ==> s[i] != c,
    ensures
        find_of(s, c) == n,
{
    lemma_find(s, c);
    let m = find_of(s, c);
    if m < n {
        assert(s[m] != c);
    } else if n < m {
        assert(s[n] != c);
    }
}

/// The first position of `c` at or after `from`, or the length.
pub fn find_from(chars: &Vec<char>, c: char, from: usize) -> (r: usize)
    requires
        from <= chars@.len(),
    ensures
        from <= r <= chars@.len(),
        r == from + find_of(chars@.skip(from as int), c),
{
    let mut i: usize = from;
    while i < chars.len() && chars[i] != c
        invariant
            from <= i <= chars@.len(),
            forall|k: int| from <= k < i ==> chars@[k] != c,
        decreases chars@.len() - i,
    {
        i += 1;
    }
    proof {
        lemma_find_unique(chars@.skip(from as int), c, i - from);
    }
    i
}

/// Whether `c` stands in `s`.
pub open spec fn has(s: Seq<char>, c: char) -> bool {
    find_of(s, c) < s.len()
}

/// What stands before and after the first `c`, if there is one.
pub open spec fn split_once_of(s: Seq<char>, c: char) -> Option<(Seq<char>, Seq<char>)> {
    let n = find_of(s, c);
    if n < s.len() {
        Some((s.take(n), s.skip(n + 1)))
    } else {
        None
    }
}

/// Splits at the first `c`.
pub fn split_once(s: &str, c: char) -> (r: Option<(String, String)>)
    ensures
        match r {
            Some((head, tail)) => split_once_of(s@, c) == Some((head@, tail@)),
            None => split_once_of(s@, c) is None,
        },
{
    let chars = chars_of(s);
    let n = find_from(&chars, c, 0);
    assert(chars@.skip(0) =~= s@);
    if n < chars.len() {
        let head = slice_of(&chars, 0, n);
        let tail = slice_of(&chars, n + 1, chars.len());
        assert(head@ =~= s@.take(n as int));
        assert(tail@ =~= s@.skip(n + 1));
        Some((head, tail))
    } else {
        None
    }
}

/// Whether `p` begins `s`.
pub open spec fn begins(s: Seq<char>, p: Seq<char>) -> bool {
    p.len() <= s.len() && s.take(p.len() as int) == p
}

/// Whether `p` ends `s`.
pub open spec fn ends(s: Seq<char>, p: Seq<char>) -> bool {
    p.len() <= s.len() && s.skip(s.len() - p.len()) == p
}

/// Whether `pat` stands in `chars` at position `at`.
pub fn stands_at(chars: &Vec<char>, pat: &Vec<char>, at: usize) -> (r: bool)
    requires
        at <= chars@.len(),
    ensures
        r == begins(chars@.skip(at as int), pat@),
{
    if pat.len() > chars.len() - at {
        return false;
    }
    let ghost rest = chars@.skip(at as int);
    let mut i: usize = 0;
    while i < pat.len()
        invariant
            i <= pat@.len() <= chars@.len() - at,
            at <= chars@.len() <= usize::MAX,
            rest == chars@.skip(at as int),
            forall|k: int| 0 <= k < i ==> rest[k] == pat@[k],
        decreases pat@.len() - i,
    {
        if chars[at + i] != pat[i] {
            assert(rest.take(pat@.len() as int)[i as int] != pat@[i as int]);
            return false;
        }
        i += 1;
    }
    assert(rest.take(pat@.len() as int) =~= pat@);
    true
}

/// Tests [`begins`].
pub fn starts_with(s: &str, p: &str) -> (r: bool)
    ensures
        r == begins(s@, p@),
{
    let chars = chars_of(s);
    let pat = chars_of(p);
    assert(chars@.skip(0) =~= s@);
    stands_at(&chars, &pat, 0)
}

/// Tests [`ends`].
pub fn ends_with(s: &str, p: &str) -> (r: bool)
    ensures
        r == ends(s@, p@),
{
    let chars = chars_of(s);
    let pat = chars_of(p);
    if pat.len() > chars.len() {
        return false;
    }
    let at: usize = chars.len() - pat.len();
    assert(s@.skip(at as int).take(pat@.len() as int) =~= s@.skip(at as int));
    stands_at(&chars, &pat, at)
}

/// What follows `p` in a string that begins with it.
pub fn strip_prefix(s: &str, p: &str) -> (r: Option<String>)
    ensures
        r is Some <==> begins(s@, p@),
        r is Some ==> r->0@ == s@.skip(p@.len() as int),
{
    let chars = chars_of(s);
    let pat = chars_of(p);
    assert(chars@.skip(0) =~= s@);
    if stands_at(&chars, &pat, 0) {
        let rest = slice_of(&chars, pat.len(), chars.len());
        assert(rest@ =~= s@.skip(p@.len() as int));
        Some(rest)
    } else {
        None
    }
}

/// `s` without the `p`s that it begins with, however many there are.
pub open spec fn strip_all_of(s: Seq<char>, p: Seq<char>) -> Seq<char>
    decreases s.len(),
{
    if p.len() > 0 && begins(s, p) {
        strip_all_of(s.skip(p.len() as int), p)
    } else {
        s
    }
}

/// Strips `p` from the front for as long as it stands there.
pub fn strip_all(s: &str, p: &str) -> (r: String)
    requires
        p@.len() > 0,
    ensures
        r@ == strip_all_of(s@, p@),
{
    let chars = chars_of(s);
    let pat = chars_of(p);
    let n: usize = chars.len();
    let mut at: usize = 0;
    assert(s@.skip(0) =~= s@);
    while stands_at(&chars, &pat, at)
        invariant
            at <= n == chars@.len(),
            chars@ == s@,
            pat@ == p@,
            p@.len() > 0,
            strip_all_of(s@, p@) == strip_all_of(s@.skip(at as int), p@),
        decreases chars@.len() - at,
    {
        assert(s@.skip(at as int).skip(p@.len() as int) =~= s@.skip(at + p@.len()));
        at += pat.len();
    }
    let r = slice_of(&chars, at, n);
    assert(r@ =~= s@.skip(at as int));
    r
}

/// What stands in `s` before the first `c`, or all of it.
pub open spec fn before_of(s: Seq<char>, c: char) -> Seq<char> {
    s.take(find_of(s, c))
}

/// The text before the first `c`.
pub fn before(s: &str, c: char) -> (r: String)
    ensures
        r@ == before_of(s@, c),
{
    let chars = chars_of(s);
    let n = find_from(&chars, c, 0);
    assert(chars@.skip(0) =~= s@);
    let r = slice_of(&chars, 0, n);
    assert(r@ =~= s@.take(n as int));
    r
}

/// What stands in `s` after the last `c`, or all of it.
pub open spec fn after_last_of(s: Seq<char>, c: char) -> Seq<char>
    decreases s.len(),
{
    if s.len() == 0 || s.last() == c {
        Seq::empty()
    } else {
        after_last_of(s.drop_last(), c).push(s.last())
    }
}

/// The text after the last `c`.
pub fn after_last(s: &str, c: char) -> (r: String)
    ensures
        r@ == after_last_of(s@, c),
{
    let chars = chars_of(s);
    let n: usize = chars.len();
    let mut from: usize = n;
    assert(s@.take(n as int) =~= s@);
    assert(after_last_of(s@.take(from as int), c) + s@.skip(from as int) =~= after_last_of(s@, c));
    while from > 0 && chars[from - 1] != c
        invariant
            from <= n,
            n == chars@.len(),
            chars@ == s@,
            after_last_of(s@.take(from as int), c) + s@.skip(from as int) == after_last_of(s@, c),
        decreases from,
    {
        assert(s@.take(from as int).drop_last() =~= s@.take(from - 1));
        assert(s@.take(from as int).last() == s@[from - 1]);
        assert(seq![s@[from - 1]] + s@.skip(from as int) =~= s@.skip(from - 1));
        assert(after_last_of(s@.take(from - 1), c) + s@.skip(from - 1) =~= after_last_of(
            s@.take(from as int),
            c,
        ) + s@.skip(from as int));
        from -= 1;
    }
    assert(after_last_of(s@.take(from as int), c) =~= Seq::<char>::empty());
    let r = slice_of(&chars, from, n);
    assert(r@ =~= s@.skip(from as int));
    assert(after_last_of(s@, c) =~= s@.skip(from as int));
    r
}

/// `s` without the `c`s that it ends with.
pub open spec fn trim_end_char_of(s: Seq<char>, c: char) -> Seq<char>
    decreases s.len(),
{
    if s.len() > 0 && s.last() == c {
        trim_end_char_of(s.drop_last(), c)
    } else {
        s
    }
}

/// Strips `c` from the end for as long as it stands there.
pub fn trim_end_char(s: &str, c: char) -> (r: String)
    ensures
        r@ == trim_end_char_of(s@, c),
{
    let chars = chars_of(s);
    let mut to: usize = chars.len();
    assert(s@.take(to as int) =~= s@);
    while to > 0 && chars[to - 1] == c
        invariant
            to <= chars@.len(),
            chars@ == s@,
            trim_end_char_of(s@, c) == trim_end_char_of(s@.take(to as int), c),
        decreases to,
    {
        assert(s@.take(to as int).drop_last() =~= s@.take(to - 1));
        to -= 1;
    }
    let r = slice_of(&chars, 0, to);
    assert(r@ =~= s@.take(to as int));
    r
}

/// Whether `p` stands somewhere in `s`.
pub open spec fn contains_of(s: Seq<char>, p: Seq<char>) -> bool {
    exists|i: int| 0 <= i <= s.len() && #[trigger] begins(s.skip(i), p)
}

/// Where `p` first stands in `s`.
pub open spec fn find_text_of(s: Seq<char>, p: Seq<char>) -> Option<int>
    decreases s.len(),
{
    if begins(s, p) {
        Some(0)
    } else if s.len() == 0 {
        None
    } else {
        match find_text_of(s.drop_first(), p) {
            Some(i) => Some(i + 1),
            None => None,
        }
    }
}

/// [`find_text_of`] is a place at which the text stands.
pub proof fn lemma_find_text(s: Seq<char>, p: Seq<char>)
    ensures
        find_text_of(s, p) matches Some(i) ==> 0 <= i && i + p.len() <= s.len() && s.subrange(
            i,
            i + p.len(),
        ) == p,
    decreases s.len(),
{
    if begins(s, p) {
        assert(s.subrange(0, p.len() as int) =~= s.take(p.len() as int));
    } else if s.len() > 0 {
        lemma_find_text(s.drop_first(), p);
        if let Some(i) = find_text_of(s.drop_first(), p) {
            assert(s.subrange(i + 1, i + 1 + p.len()) =~= s.drop_first().subrange(i, i + p.len()));
        }
    }
}

/// The first position at or after `from` at which `pat` stands.
pub fn find_text_from(chars: &Vec<char>, pat: &Vec<char>, from: usize) -> (r: Option<usize>)
    requires
        from <= chars@.len(),
    ensures
        match r {
            Some(at) => {
                &&& from <= at
                &&& at + pat@.len() <= chars@.len()
                &&& find_text_of(chars@.skip(from as int), pat@) == Some(at - from)
            },
            None => find_text_of(chars@.skip(from as int), pat@) is None,
        },
{
    let ghost rest = chars@.skip(from as int);
    let mut i: usize = from;
    assert(rest.skip(0) =~= rest);
    loop
        invariant
            from <= i <= chars@.len(),
            rest == chars@.skip(from as int),
            match find_text_of(rest.skip(i - from), pat@) {
                Some(k) => find_text_of(rest, pat@) == Some(k + (i - from)),
                None => find_text_of(rest, pat@) is None,
            },
        decreases chars@.len() - i,
    {
        assert(rest.skip(i - from) =~= chars@.skip(i as int));
        if stands_at(chars, pat, i) {
            return Some(i);
        }
        if i == chars.len() {
            return None;
        }
        assert(rest.skip(i - from).drop_first() =~= rest.skip(i + 1 - from));
        i += 1;
    }
}

/// What stands before and after the first `p`, if it is there.
pub open spec fn split_once_text_of(s: Seq<char>, p: Seq<char>) -> Option<(Seq<char>, Seq<char>)> {
    match find_text_of(s, p) {
        Some(i) => Some((s.take(i), s.skip(i + p.len()))),
        None => None,
    }
}

/// Splits at the first `p`.
pub fn split_once_text(s: &str, p: &str) -> (r: Option<(String, String)>)
    ensures
        match r {
            Some((head, tail)) => split_once_text_of(s@, p@) == Some((head@, tail@)),
            None => split_once_text_of(s@, p@) is None,
        },
{
    let chars = chars_of(s);
    let pat = chars_of(p);
    let n: usize = chars.len();
    assert(chars@.skip(0) =~= s@);
    match find_text_from(&chars, &pat, 0) {
        Some(at) => {
            let head = slice_of(&chars, 0, at);
            let tail = slice_of(&chars, at + pat.len(), n);
            assert(head@ =~= s@.take(at as int));
            assert(tail@ =~= s@.skip(at + p@.len()));
            Some((head, tail))
        },
        None => None,
    }
}

/// `s` without the `c`s that it begins with.
pub open spec fn trim_start_char_of(s: Seq<char>, c: char) -> Seq<char>
    decreases s.len(),
{
    if s.len() > 0 && s[0] == c {
        trim_start_char_of(s.drop_first(), c)
    } else {
        s
    }
}

/// Strips `c` from the front for as long as it stands there.
pub fn trim_start_char(s: &str, c: char) -> (r: String)
    ensures
        r@ == trim_start_char_of(s@, c),
{
    let chars = chars_of(s);
    let mut from: usize = 0;
    assert(s@.skip(0) =~= s@);
    while from < chars.len() && chars[from] == c
        invariant
            from <= chars@.len(),
            chars@ == s@,
            trim_start_char_of(s@, c) == trim_start_char_of(s@.skip(from as int), c),
        decreases chars@.len() - from,
    {
        assert(s@.skip(from as int).drop_first() =~= s@.skip(from + 1));
        from += 1;
    }
    let r = slice_of(&chars, from, chars.len());
    assert(r@ =~= s@.skip(from as int));
    r
}

/// Tests [`contains_of`].
pub fn contains(s: &str, p: &str) -> (r: bool)
    ensures
        r == contains_of(s@, p@),
{
    let chars = chars_of(s);
    let pat = chars_of(p);
    let mut i: usize = 0;
    loop
        invariant
            i <= chars@.len(),
            chars@ == s@,
            pat@ == p@,
            forall|k: int| 0 <= k < i ==> !#[trigger] begins(s@.skip(k), p@),
        decreases chars@.len() - i,
    {
        if stands_at(&chars, &pat, i) {
            return true;
        }
        if i == chars.len() {
            return false;
        }
        i += 1;
    }
}

/// `s` with every `from`, taken from the left and without overlap, replaced by
/// `to`. An empty `from` replaces nothing.
pub open spec fn replace_of(s: Seq<char>, from: Seq<char>, to: Seq<char>) -> Seq<char>
    decreases s.len(),
{
    if s.len() == 0 || from.len() == 0 {
        s
    } else if begins(s, from) {
        to + replace_of(s.skip(from.len() as int), from, to)
    } else {
        seq![s[0]] + replace_of(s.drop_first(), from, to)
    }
}

/// Replaces every `from` by `to`.
pub fn replace(s: &str, from: &str, to: &str) -> (r: String)
    requires
        from@.len() > 0,
    ensures
        r@ == replace_of(s@, from@, to@),
{
    let chars = chars_of(s);
    let pat = chars_of(from);
    let mut r = String::new();
    let mut i: usize = 0;
    assert(s@.skip(0) =~= s@);
    while i < chars.len()
        invariant
            i <= chars@.len(),
            chars@ == s@,
            pat@ == from@,
            from@.len() > 0,
            r@ + replace_of(s@.skip(i as int), from@, to@) == replace_of(s@, from@, to@),
        decreases chars@.len() - i,
    {
        let ghost rest = s@.skip(i as int);
        let ghost before = r@;
        if stands_at(&chars, &pat, i) {
            r.push_str(to);
            assert(rest.skip(from@.len() as int) =~= s@.skip(i + from@.len()));
            assert(r@ + replace_of(s@.skip(i + from@.len()), from@, to@) =~= before + (to@
                + replace_of(s@.skip(i + from@.len()), from@, to@)));
            i += pat.len();
        } else {
            r.push(chars[i]);
            assert(rest.drop_first() =~= s@.skip(i + 1));
            assert(r@ + replace_of(s@.skip(i + 1), from@, to@) =~= before + (seq![s@[i as int]]
                + replace_of(s@.skip(i + 1), from@, to@)));
            i += 1;
        }
    }
    assert(s@.skip(i as int) =~= Seq::<char>::empty());
    assert(r@ + Seq::<char>::empty() =~= r@);
    r
}

/// `s` with every character `from` replaced by the character `to`.
pub fn replace_char(s: &str, from: char, to: char) -> (r: String)
    ensures
        r@ == s@.map_values(|c: char| if c == from { to } else { c }),
{
    let chars = chars_of(s);
    let mut r = String::new();
    let mut i: usize = 0;
    while i < chars.len()
        invariant
            i <= chars@.len(),
            chars@ == s@,
            r@ == s@.take(i as int).map_values(|c: char| if c == from { to } else { c }),
        decreases chars@.len() - i,
    {
        let c = if chars[i] == from { to } else { chars[i] };
        r.push(c);
        assert(s@.take(i + 1) =~= s@.take(i as int).push(s@[i as int]));
        assert(r@ =~= s@.take(i + 1).map_values(|c: char| if c == from { to } else { c }));
        i += 1;
    }
    assert(s@.take(i as int) =~= s@);
    r
}

/// The pieces of `s` between the `c`s.
pub open spec fn split_of(s: Seq<char>, c: char) -> Seq<Seq<char>>
    decreases s.len(),
{
    let n = find_of(s, c);
    if 0 <= n < s.len() {
        seq![s.take(n)] + split_of(s.skip(n + 1), c)
    } else {
        seq![s]
    }
}

/// A line without the carriage return that ends it.
pub open spec fn strip_return(s: Seq<char>) -> Seq<char> {
    if s.len() > 0 && s.last() == '\r' {
        s.drop_last()
    } else {
        s
    }
}

/// The lines of `s`, which end in `\n` or `\r\n`; the last may end with the text.
pub open spec fn lines_of(s: Seq<char>) -> Seq<Seq<char>>
    decreases s.len(),
{
    let n = find_of(s, '\n');
    if s.len() == 0 {
        Seq::empty()
    } else if 0 <= n < s.len() {
        seq![strip_return(s.take(n))] + lines_of(s.skip(n + 1))
    } else {
        seq![s]
    }
}

/// Splits a text into its lines.
pub fn lines(s: &str) -> (r: Vec<String>)
    ensures
        r.deep_view() == lines_of(s@),
{
    let chars = chars_of(s);
    let mut r: Vec<String> = Vec::new();
    let mut from: usize = 0;
    assert(s@.skip(0) =~= s@);
    while from < chars.len()
        invariant
            from <= chars@.len(),
            chars@ == s@,
            r.deep_view() + lines_of(s@.skip(from as int)) == lines_of(s@),
        decreases chars@.len() - from,
    {
        let ghost rest = s@.skip(from as int);
        let ghost before = r.deep_view();
        let n = find_from(&chars, '\n', from);
        proof {
            lemma_find(rest, '\n');
        }
        if n == chars.len() {
            let piece = slice_of(&chars, from, n);
            assert(piece@ =~= rest);
            r.push(piece);
            assert(r.deep_view() =~= before.push(piece@));
            assert(before + seq![rest] =~= before.push(rest));
            return r;
        }
        let to: usize = if n > from && chars[n - 1] == '\r' { n - 1 } else { n };
        let piece = slice_of(&chars, from, to);
        assert(rest.take(n - from) =~= s@.subrange(from as int, n as int));
        assert(piece@ =~= strip_return(rest.take(n - from)));
        r.push(piece);
        assert(r.deep_view() =~= before.push(piece@));
        assert(rest.skip(n - from + 1) =~= s@.skip(n + 1));
        assert(r.deep_view() + lines_of(s@.skip(n + 1)) =~= before + (seq![piece@] + lines_of(
            s@.skip(n + 1),
        )));
        from = n + 1;
    }
    assert(s@.skip(from as int) =~= Seq::<char>::empty());
    assert(r.deep_view() + Seq::<Seq<char>>::empty() =~= r.deep_view());
    r
}

/// How many characters stand before the first white space.
pub open spec fn word_len(s: Seq<char>) -> int
    decreases s.len(),
{
    if s.len() == 0 || is_white(s[0]) {
        0
    } else {
        1 + word_len(s.drop_first())
    }
}

/// A word is no longer than the text, and free of white space.
pub proof fn lemma_word_len(s: Seq<char>)
    ensures
        0 <= word_len(s) <= s.len(),
        s.len() > 0 && !is_white(s[0]) ==> word_len(s) > 0,
        forall|i: int| 0 <= i < word_len(s) ==> !is_white(#[trigger] s[i]),
        word_len(s) < s.len() ==> is_white(s[word_len(s)]),
    decreases s.len(),
{
    if s.len() > 0 && !is_white(s[0]) {
        lemma_word_len(s.drop_first());
        assert forall|i: int| 0 <= i < word_len(s) implies !is_white(#[trigger] s[i]) by {
            if i > 0 {
                assert(s[i] == s.drop_first()[i - 1]);
            }
        }
    }
}

/// The stretches of `s` without white space, in order.
pub open spec fn words_of(s: Seq<char>) -> Seq<Seq<char>>
    decreases s.len(),
    via words_decreases
{
    let t = trim_start_of(s);
    if t.len() == 0 {
        Seq::empty()
    } else {
        seq![t.take(word_len(t))] + words_of(t.skip(word_len(t)))
    }
}

#[via_fn]
proof fn words_decreases(s: Seq<char>) {
    lemma_trim_start_suffix(s);
    lemma_word_len(trim_start_of(s));
}

/// Splits at white space.
pub fn words(s: &str) -> (r: Vec<String>)
    ensures
        r.deep_view() == words_of(s@),
{
    let chars = chars_of(s);
    let mut r: Vec<String> = Vec::new();
    let mut from: usize = 0;
    assert(s@.skip(0) =~= s@);
    loop
        invariant
            from <= chars@.len(),
            chars@ == s@,
            r.deep_view() + words_of(s@.skip(from as int)) == words_of(s@),
        decreases chars@.len() - from,
    {
        let ghost rest = s@.skip(from as int);
        let ghost before = r.deep_view();
        let ghost begun = from as int;
        while from < chars.len() && white(chars[from])
            invariant
                begun <= from <= chars@.len(),
                chars@ == s@,
                trim_start_of(rest) == trim_start_of(s@.skip(from as int)),
            decreases chars@.len() - from,
        {
            assert(s@.skip(from as int).drop_first() =~= s@.skip(from + 1));
            from += 1;
        }
        let ghost t = s@.skip(from as int);
        assert(trim_start_of(rest) == t);
        if from == chars.len() {
            assert(r.deep_view() + Seq::<Seq<char>>::empty() =~= r.deep_view());
            return r;
        }
        let mut to: usize = from;
        assert(t.skip(0) =~= t);
        while to < chars.len() && !white(chars[to])
            invariant
                from <= to <= chars@.len(),
                chars@ == s@,
                t == s@.skip(from as int),
                word_len(t) == (to - from) + word_len(s@.skip(to as int)),
            decreases chars@.len() - to,
        {
            assert(s@.skip(to as int).drop_first() =~= s@.skip(to + 1));
            to += 1;
        }
        proof {
            lemma_word_len(t);
        }
        assert(word_len(t) == to - from);
        let word = slice_of(&chars, from, to);
        assert(word@ =~= t.take(to - from));
        r.push(word);
        assert(r.deep_view() =~= before.push(word@));
        assert(t.skip(to - from) =~= s@.skip(to as int));
        assert(r.deep_view() + words_of(s@.skip(to as int)) =~= before + (seq![word@] + words_of(
            s@.skip(to as int),
        )));
        from = to;
    }
}

/// `parts` one after another, with `sep` between each two.
pub open spec fn join_of(parts: Seq<Seq<char>>, sep: Seq<char>) -> Seq<char>
    decreases parts.len(),
{
    if parts.len() == 0 {
        Seq::empty()
    } else if parts.len() == 1 {
        parts[0]
    } else {
        join_of(parts.drop_last(), sep) + sep + parts.last()
    }
}

/// Joins `parts` with `sep` between each two.
pub fn join(parts: &Vec<String>, sep: &str) -> (r: String)
    ensures
        r@ == join_of(parts.deep_view(), sep@),
{
    let mut r = String::new();
    let mut i: usize = 0;
    while i < parts.len()
        invariant
            i <= parts@.len(),
            r@ == join_of(parts.deep_view().take(i as int), sep@),
        decreases parts@.len() - i,
    {
        let ghost done = parts.deep_view().take(i + 1);
        assert(done.drop_last() =~= parts.deep_view().take(i as int));
        if i > 0 {
            r.push_str(sep);
        }
        r.push_str(&parts[i]);
        i += 1;
    }
    assert(parts.deep_view().take(i as int) =~= parts.deep_view());
    r
}

/// `s` with spaces behind it up to `width` characters; a longer `s` stays whole.
pub open spec fn pad_of(s: Seq<char>, width: nat) -> Seq<char> {
    if s.len() >= width {
        s
    } else {
        s + Seq::new((width - s.len()) as nat, |i: int| ' ')
    }
}

/// Pads with spaces on the right.
pub fn pad(s: &str, width: usize) -> (r: String)
    ensures
        r@ == pad_of(s@, width as nat),
{
    let mut r = s.to_owned();
    let mut n: usize = s.unicode_len();
    let ghost start = n;
    while n < width
        invariant
            start <= n,
            n <= width || n == start,
            start == s@.len(),
            r@ == s@ + Seq::new((n - start) as nat, |i: int| ' '),
        decreases width - n,
    {
        r.push(' ');
        assert(r@ =~= s@ + Seq::new((n + 1 - start) as nat, |i: int| ' '));
        n += 1;
    }
    assert(start >= width ==> r@ =~= s@);
    r
}

/// Pads with spaces on the right, two columns beyond a width.
pub fn pad_beyond(s: &str, width: usize) -> (r: String)
    ensures
        r@ == pad_of(s@, (width + 2) as nat),
{
    let n: usize = s.unicode_len();
    let mut r = pad(s, width);
    let ghost padded = r@;
    if n <= width {
        r.push(' ');
        r.push(' ');
        assert(r@ =~= pad_of(s@, (width + 2) as nat));
    } else if n - 1 == width {
        r.push(' ');
        assert(r@ =~= pad_of(s@, (width + 2) as nat));
    }
    r
}

/// A decimal digit.
pub open spec fn digit_of(n: nat) -> char {
    (48 + n % 10) as char
}

/// `n` in decimal.
pub open spec fn decimal_of(n: nat) -> Seq<char>
    decreases n,
{
    if n < 10 {
        seq![digit_of(n)]
    } else {
        decimal_of(n / 10).push(digit_of(n))
    }
}

/// A lower-case hexadecimal digit.
pub open spec fn hex_digit_of(n: nat) -> char {
    if n % 16 < 10 {
        (48 + n % 16) as char
    } else {
        (87 + n % 16) as char
    }
}

/// `n` in hexadecimal, the last `width` digits of it.
pub open spec fn hex_of(n: nat, width: nat) -> Seq<char>
    decreases width,
{
    if width == 0 {
        Seq::empty()
    } else {
        hex_of(n / 16, (width - 1) as nat).push(hex_digit_of(n))
    }
}

/// Writes `n` in hexadecimal, `width` digits of it.
pub fn hex(n: u64, width: usize) -> (r: String)
    ensures
        r@ == hex_of(n as nat, width as nat),
    decreases width,
{
    if width == 0 {
        return String::new();
    }
    let mut r = hex(n / 16, width - 1);
    let d: u8 = (n % 16) as u8;
    let c: u8 = if d < 10 {
        48 + d
    } else {
        87 + d
    };
    r.push(c as char);
    r
}

/// Writes `n` in decimal.
pub fn decimal(n: u64) -> (r: String)
    ensures
        r@ == decimal_of(n as nat),
    decreases n,
{
    let d: u8 = 48 + (n % 10) as u8;
    if n < 10 {
        let mut r = String::new();
        r.push(d as char);
        assert(r@ =~= seq![digit_of(n as nat)]);
        r
    } else {
        let mut r = decimal(n / 10);
        r.push(d as char);
        r
    }
}

} // verus!
