//! What holds of texts that are trimmed, split, joined, searched and written out.

use vstd::prelude::*;

use crate::json::{json_escaped, json_string, json_strings};
use crate::paths::{extension_of, stem_of};
use crate::text::{
    after_last_of, begins, contains_of, decimal_of, digit_of, find_of, find_text_of, hex_digit_of,
    hex_of, is_white, join_of, lemma_find, lemma_find_text, lemma_find_unique, lemma_word_len,
    lines_of, pad_of, replace_of, split_of, split_once_of, split_once_text_of, strip_all_of,
    trim_end_char_of, trim_end_of, trim_of, trim_start_char_of, trim_start_of, word_len, words_of,
};

verus! {

/// Whether a text is nothing but white space.
pub open spec fn is_blank(text: Seq<char>) -> bool {
    forall|i: int| 0 <= i < text.len() ==> is_white(#[trigger] text[i])
}

/// Whether a text holds no white space.
pub open spec fn is_one_word(text: Seq<char>) -> bool {
    forall|i: int| 0 <= i < text.len() ==> !is_white(#[trigger] text[i])
}

/// Whether a character stands nowhere in a text.
pub open spec fn is_free_of(text: Seq<char>, c: char) -> bool {
    forall|i: int| 0 <= i < text.len() ==> #[trigger] text[i] != c
}

/// White space before a text is dropped from its start.
pub proof fn lemma_trim_start_blank(blank: Seq<char>, rest: Seq<char>)
    requires
        is_blank(blank),
    ensures
        trim_start_of(blank + rest) == trim_start_of(rest),
    decreases blank.len(),
{
    let all = blank + rest;
    if blank.len() == 0 {
        assert(all =~= rest);
    } else {
        assert(all[0] == blank[0]);
        assert(is_white(blank[0]));
        let tail = blank.drop_first();
        assert forall|i: int| 0 <= i < tail.len() implies is_white(#[trigger] tail[i]) by {
            assert(tail[i] == blank[i + 1]);
        }
        assert(all.drop_first() =~= tail + rest);
        lemma_trim_start_blank(tail, rest);
    }
}

/// White space behind a text is dropped from its end.
pub proof fn lemma_trim_end_blank(rest: Seq<char>, blank: Seq<char>)
    requires
        is_blank(blank),
    ensures
        trim_end_of(rest + blank) == trim_end_of(rest),
    decreases blank.len(),
{
    let all = rest + blank;
    if blank.len() == 0 {
        assert(all =~= rest);
    } else {
        assert(all.last() == blank[blank.len() - 1]);
        assert(is_white(blank[blank.len() - 1]));
        let tail = blank.drop_last();
        assert forall|i: int| 0 <= i < tail.len() implies is_white(#[trigger] tail[i]) by {
            assert(tail[i] == blank[i]);
        }
        assert(all.drop_last() =~= rest + tail);
        lemma_trim_end_blank(rest, tail);
    }
}

/// What is left of a text whose end is trimmed is its front.
pub proof fn lemma_trim_end_front(s: Seq<char>)
    ensures
        trim_end_of(s).len() <= s.len(),
        forall|i: int| 0 <= i < trim_end_of(s).len() ==> #[trigger] trim_end_of(s)[i] == s[i],
    decreases s.len(),
{
    if s.len() > 0 && is_white(s.last()) {
        let rest = s.drop_last();
        lemma_trim_end_front(rest);
        assert forall|i: int| 0 <= i < trim_end_of(s).len() implies #[trigger] trim_end_of(
            s,
        )[i] == s[i] by {
            assert(trim_end_of(rest)[i] == rest[i]);
        }
    }
}

/// Trimming takes the white space around a text and nothing else.
pub proof fn law_trimming_takes_white_space_only(
    before: Seq<char>,
    text: Seq<char>,
    after: Seq<char>,
)
    requires
        is_blank(before),
        is_blank(after),
        text.len() > 0 ==> !is_white(text[0]) && !is_white(text.last()),
    ensures
        trim_of(before + text + after) == text,
        trim_start_of(before + text + after) == (if text.len() == 0 {
            Seq::empty()
        } else {
            text + after
        }),
        trim_end_of(before + text + after) == (if text.len() == 0 {
            Seq::empty()
        } else {
            before + text
        }),
{
    let all = before + text + after;
    assert(all =~= before + (text + after));
    lemma_trim_start_blank(before, text + after);
    lemma_trim_end_blank(before + text, after);
    if text.len() == 0 {
        let nothing = Seq::<char>::empty();
        lemma_trim_start_blank(after, nothing);
        assert(text + after =~= after + nothing);
        lemma_trim_end_blank(nothing, before);
        assert(before + text =~= nothing + before);
        assert(trim_start_of(nothing) == nothing);
        assert(trim_end_of(nothing) == nothing);
        assert(text =~= nothing);
    } else {
        assert((text + after)[0] == text[0]);
        assert((before + text).last() == text.last());
        lemma_trim_end_blank(text, after);
    }
}

/// Splitting at the first of a character gives what stands before and behind it.
pub proof fn law_splitting_once(head: Seq<char>, c: char, tail: Seq<char>)
    requires
        is_free_of(head, c),
    ensures
        split_once_of(head + seq![c] + tail, c) == Some((head, tail)),
        split_once_of(head, c) is None,
{
    let all = head + seq![c] + tail;
    lemma_find_unique(all, c, head.len() as int);
    assert(all.take(head.len() as int) =~= head);
    assert(all.skip(head.len() as int + 1) =~= tail);
    lemma_find_unique(head, c, head.len() as int);
}

/// Splitting at a character and joining with it gives the text back; no piece holds it,
/// and there is one piece more than it occurs.
pub proof fn law_joining_undoes_splitting(s: Seq<char>, c: char)
    ensures
        join_of(split_of(s, c), seq![c]) == s,
        split_of(s, c).len() > 0,
        forall|i: int| 0 <= i < split_of(s, c).len() ==> is_free_of(#[trigger] split_of(s, c)[i], c),
    decreases s.len(),
{
    lemma_find(s, c);
    let n = find_of(s, c);
    if n < s.len() {
        let rest = s.skip(n + 1);
        law_joining_undoes_splitting(rest, c);
        let pieces = split_of(rest, c);
        law_joining_is_one_after_another(seq![s.take(n)], pieces, seq![c]);
        assert(join_of(seq![s.take(n)], seq![c]) == s.take(n));
        assert(s.take(n) + seq![c] + rest =~= s);
        let all = split_of(s, c);
        assert forall|i: int| 0 <= i < all.len() implies is_free_of(#[trigger] all[i], c) by {
            if i == 0 {
                assert(all[i] == s.take(n));
            } else {
                assert(all[i] == pieces[i - 1]);
            }
        }
    }
}

/// Texts are joined in their order, with the separator between each two and nowhere else.
pub proof fn law_joining_is_one_after_another(
    a: Seq<Seq<char>>,
    b: Seq<Seq<char>>,
    sep: Seq<char>,
)
    requires
        a.len() > 0,
        b.len() > 0,
    ensures
        join_of(a + b, sep) == join_of(a, sep) + sep + join_of(b, sep),
        a.len() == 1 ==> join_of(a, sep) == a[0],
        join_of(Seq::empty(), sep) == Seq::<char>::empty(),
    decreases b.len(),
{
    let all = a + b;
    assert(all.last() == b.last());
    if b.len() == 1 {
        assert(all.drop_last() =~= a);
        assert(b[0] == b.last());
    } else {
        let rest = b.drop_last();
        assert(all.drop_last() =~= a + rest);
        law_joining_is_one_after_another(a, rest, sep);
        assert(join_of(a, sep) + sep + join_of(rest, sep) + sep + b.last() =~= join_of(a, sep) + sep
            + (join_of(rest, sep) + sep + b.last()));
    }
}

/// A line ends at a line feed, or at one with a carriage return before it; the last needs
/// none. What follows is split likewise.
pub proof fn law_lines_end_at_line_feeds(line: Seq<char>, rest: Seq<char>)
    requires
        is_free_of(line, '\n'),
    ensures
        line.len() == 0 || line.last() != '\r' ==> lines_of(line + seq!['\n'] + rest) == seq![line]
            + lines_of(rest),
        lines_of(line + seq!['\r', '\n'] + rest) == seq![line] + lines_of(rest),
        line.len() > 0 ==> lines_of(line) == seq![line],
        lines_of(Seq::empty()) == Seq::<Seq<char>>::empty(),
{
    let one = line + seq!['\n'] + rest;
    lemma_find_unique(one, '\n', line.len() as int);
    assert(one.take(line.len() as int) =~= line);
    assert(one.skip(line.len() as int + 1) =~= rest);
    let other = line + seq!['\r', '\n'] + rest;
    assert(other[line.len() as int] == '\r');
    lemma_find_unique(other, '\n', line.len() as int + 1);
    assert(other.take(line.len() as int + 1) =~= line.push('\r'));
    assert(line.push('\r').drop_last() =~= line);
    assert(other.skip(line.len() as int + 2) =~= rest);
    lemma_find_unique(line, '\n', line.len() as int);
}

/// Words are what stands between white space, however much of it there is.
pub proof fn law_words_stand_between_white_space(
    before: Seq<char>,
    word: Seq<char>,
    rest: Seq<char>,
)
    requires
        is_blank(before),
        is_one_word(word),
        word.len() > 0,
        rest.len() > 0 ==> is_white(rest[0]),
    ensures
        words_of(before + word + rest) == seq![word] + words_of(rest),
        words_of(before) == Seq::<Seq<char>>::empty(),
{
    let all = before + word + rest;
    assert(all =~= before + (word + rest));
    lemma_trim_start_blank(before, word + rest);
    let t = word + rest;
    assert(t[0] == word[0]);
    assert(!is_white(word[0]));
    assert(trim_start_of(t) == t);
    lemma_word_len(t);
    let n = word_len(t);
    if n < word.len() {
        assert(t[n] == word[n]);
        assert(!is_white(word[n]));
    } else if n > word.len() {
        assert(t[word.len() as int] == rest[0]);
    }
    assert(t.take(n) =~= word);
    assert(t.skip(n) =~= rest);
    let nothing = Seq::<char>::empty();
    assert(before + nothing =~= before);
    lemma_trim_start_blank(before, nothing);
}

/// The first place at which a text stands: it stands there, and nowhere before; where none
/// is given it stands nowhere.
pub proof fn law_the_first_place_is_found(s: Seq<char>, p: Seq<char>, i: int)
    ensures
        find_text_of(s, p) matches Some(at) ==> 0 <= at && at + p.len() <= s.len() && begins(
            s.skip(at),
            p,
        ) && (0 <= i < at ==> !begins(s.skip(i), p)),
        find_text_of(s, p) is None && 0 <= i <= s.len() ==> !begins(s.skip(i), p),
        contains_of(s, p) <==> find_text_of(s, p) is Some,
        match split_once_text_of(s, p) {
            Some((head, tail)) => s == head + p + tail && (p.len() > 0 ==> !contains_of(
                head + p.drop_last(),
                p,
            )),
            None => !contains_of(s, p),
        },
{
    lemma_first_place(s, p, i);
    lemma_find_text(s, p);
    match find_text_of(s, p) {
        Some(at) => {
            assert(begins(s.skip(at), p)) by {
                assert(s.skip(at).take(p.len() as int) =~= s.subrange(at, at + p.len()));
            }
            let head = s.take(at);
            assert(s =~= head + p + s.skip(at + p.len())) by {
                assert(s =~= head + s.subrange(at, at + p.len()) + s.skip(at + p.len()));
            }
            if p.len() > 0 {
                let front = head + p.drop_last();
                assert forall|j: int| 0 <= j <= front.len() implies !(#[trigger] begins(
                    front.skip(j),
                    p,
                )) by {
                    if begins(front.skip(j), p) {
                        lemma_first_place(s, p, j);
                        assert(j + p.len() <= front.len());
                        assert forall|k: int| j <= k < j + p.len() implies s[k]
                            == #[trigger] front[k] by {
                            if k >= at {
                                assert(s.subrange(at, at + p.len())[k - at] == p[k - at]);
                            }
                        }
                        assert(s.skip(j).take(p.len() as int) =~= front.skip(j).take(
                            p.len() as int,
                        ));
                        assert(begins(s.skip(j), p));
                        assert(j < at);
                    }
                }
            }
        },
        None => {
            assert forall|j: int| 0 <= j <= s.len() implies !(#[trigger] begins(s.skip(j), p)) by {
                lemma_first_place(s, p, j);
            }
        },
    }
}

proof fn lemma_first_place(s: Seq<char>, p: Seq<char>, i: int)
    ensures
        find_text_of(s, p) matches Some(at) ==> 0 <= at && (0 <= i < at ==> !begins(s.skip(i), p)),
        find_text_of(s, p) is None && 0 <= i <= s.len() ==> !begins(s.skip(i), p),
    decreases s.len(),
{
    assert(s.skip(0) =~= s);
    if !begins(s, p) && s.len() > 0 {
        let rest = s.drop_first();
        lemma_first_place(rest, p, i - 1);
        lemma_find_text(s, p);
        if 0 < i <= s.len() {
            assert(s.skip(i) =~= rest.skip(i - 1));
        }
    }
}

/// A place at which a text stands, with none before it, is the one that is found.
pub proof fn lemma_find_text_unique(s: Seq<char>, p: Seq<char>, n: int)
    requires
        0 <= n <= s.len(),
        begins(s.skip(n), p),
        forall|i: int| 0 <= i < n ==> !begins(#[trigger] s.skip(i), p),
    ensures
        find_text_of(s, p) == Some(n),
{
    lemma_first_place(s, p, n);
    lemma_find_text(s, p);
    let at = find_text_of(s, p)->0;
    if at < n {
        assert(s.skip(at).take(p.len() as int) =~= s.subrange(at, at + p.len()));
        assert(begins(s.skip(at), p));
    }
}

/// Replacing changes each occurrence, from the left, and nothing else.
pub proof fn law_replacing_changes_every_occurrence(s: Seq<char>, from: Seq<char>, to: Seq<char>)
    requires
        from.len() > 0,
    ensures
        replace_of(s, from, to) == (match split_once_text_of(s, from) {
            None => s,
            Some((head, tail)) => head + to + replace_of(tail, from, to),
        }),
    decreases s.len(),
{
    lemma_find_text(s, from);
    if s.len() == 0 {
        assert(!begins(s, from));
    } else if begins(s, from) {
        assert(s.take(0) + to =~= to);
    } else {
        let rest = s.drop_first();
        law_replacing_changes_every_occurrence(rest, from, to);
        lemma_find_text(rest, from);
        match find_text_of(rest, from) {
            None => {
                assert(seq![s[0]] + rest =~= s);
            },
            Some(i) => {
                assert(seq![s[0]] + rest.take(i) =~= s.take(i + 1));
                assert(rest.skip(i + from.len()) =~= s.skip(i + 1 + from.len()));
                let tail = replace_of(s.skip(i + 1 + from.len()), from, to);
                assert(seq![s[0]] + (rest.take(i) + to + tail) =~= s.take(i + 1) + to + tail);
            },
        }
    }
}

/// What a run of digits is worth to some base.
pub open spec fn worth(digits: Seq<char>, base: nat) -> nat
    decreases digits.len(),
{
    if digits.len() == 0 {
        0
    } else {
        worth(digits.drop_last(), base) * base + (if digits.last() <= '9' {
            digits.last() as nat - 48
        } else {
            digits.last() as nat - 87
        }) as nat
    }
}

/// A number in decimal digits is worth what it is, and has no digit too many.
pub proof fn law_decimals_say_the_number(n: nat)
    ensures
        worth(decimal_of(n), 10) == n,
        decimal_of(n).len() > 0,
        forall|i: int| 0 <= i < decimal_of(n).len() ==> '0' <= #[trigger] decimal_of(n)[i] <= '9',
        n > 0 ==> decimal_of(n)[0] != '0',
    decreases n,
{
    let digits = decimal_of(n);
    let last = digit_of(n);
    if n >= 10 {
        law_decimals_say_the_number(n / 10);
        assert(digits.drop_last() =~= decimal_of(n / 10));
        assert forall|i: int| 0 <= i < digits.len() implies '0' <= #[trigger] digits[i] <= '9' by {
            if i < digits.len() - 1 {
                assert(digits[i] == decimal_of(n / 10)[i]);
            }
        }
        assert(digits[0] == decimal_of(n / 10)[0]);
    } else {
        assert(digits.drop_last() =~= Seq::<char>::empty());
        assert(worth(Seq::<char>::empty(), 10) == 0);
        assert(digits[0] == last);
    }
}

/// Sixteen to some power.
pub open spec fn sixteens(width: nat) -> nat
    decreases width,
{
    if width == 0 {
        1
    } else {
        16 * sixteens((width - 1) as nat)
    }
}

/// A number in hexadecimal digits has as many as were asked for, and is worth what it is
/// where it fits.
pub proof fn law_hexadecimals_say_the_number(n: nat, width: nat)
    requires
        n < sixteens(width),
    ensures
        hex_of(n, width).len() == width,
        worth(hex_of(n, width), 16) == n,
    decreases width,
{
    if width > 0 {
        law_hexadecimals_say_the_number(n / 16, (width - 1) as nat);
        let digits = hex_of(n, width);
        assert(digits.drop_last() =~= hex_of(n / 16, (width - 1) as nat));
        assert(digits.last() == hex_digit_of(n));
    }
}

/// A padded text is the text and then spaces, up to the width; a longer one is left alone.
pub proof fn law_padding_adds_spaces(s: Seq<char>, width: nat)
    ensures
        begins(pad_of(s, width), s),
        s.len() <= width ==> pad_of(s, width).len() == width,
        s.len() >= width ==> pad_of(s, width) == s,
        forall|i: int| s.len() <= i < pad_of(s, width).len() ==> #[trigger] pad_of(s, width)[i] == ' ',
{
    assert(pad_of(s, width).take(s.len() as int) =~= s);
}

/// What stands behind the last of a character.
pub proof fn law_what_stands_behind_the_last(head: Seq<char>, c: char, tail: Seq<char>)
    requires
        is_free_of(tail, c),
    ensures
        after_last_of(head + seq![c] + tail, c) == tail,
        after_last_of(tail, c) == tail,
    decreases tail.len(),
{
    let all = head + seq![c] + tail;
    if tail.len() > 0 {
        let rest = tail.drop_last();
        assert forall|i: int| 0 <= i < rest.len() implies #[trigger] rest[i] != c by {
            assert(rest[i] == tail[i]);
        }
        law_what_stands_behind_the_last(head, c, rest);
        assert(all.drop_last() =~= head + seq![c] + rest);
        assert(all.last() == tail[tail.len() - 1]);
        assert(rest.push(tail.last()) =~= tail);
    } else {
        assert(all.last() == c);
        assert(tail =~= Seq::<char>::empty());
    }
}

/// Of a character that stands at an end of a text any number of times, none is left there.
pub proof fn law_every_one_of_a_character_is_dropped(text: Seq<char>, c: char, n: nat)
    ensures
        text.len() == 0 || text.last() != c ==> trim_end_char_of(
            text + Seq::new(n, |i: int| c),
            c,
        ) == text,
        text.len() == 0 || text[0] != c ==> trim_start_char_of(Seq::new(n, |i: int| c) + text, c)
            == text,
    decreases n,
{
    let many = Seq::new(n, |i: int| c);
    if n > 0 {
        let fewer = Seq::new((n - 1) as nat, |i: int| c);
        law_every_one_of_a_character_is_dropped(text, c, (n - 1) as nat);
        assert((text + many).drop_last() =~= text + fewer);
        assert((text + many).last() == c);
        assert((many + text).drop_first() =~= fewer + text);
        assert((many + text)[0] == c);
    } else {
        assert(text + many =~= text);
        assert(many + text =~= text);
    }
}

/// Of a text that stands at the start any number of times, none is left there.
pub proof fn law_every_prefix_is_dropped(s: Seq<char>, p: Seq<char>)
    requires
        p.len() > 0,
    ensures
        strip_all_of(p + s, p) == strip_all_of(s, p),
        !begins(s, p) ==> strip_all_of(s, p) == s,
{
    assert((p + s).take(p.len() as int) =~= p);
    assert((p + s).skip(p.len() as int) =~= s);
}

/// A name is its stem, a dot and its extension; the extension holds no dot, and the stem
/// is not empty. A name that starts with its only dot has no extension.
pub proof fn law_a_name_is_stem_and_extension(stem: Seq<char>, extension: Seq<char>)
    requires
        is_free_of(extension, '.'),
        stem + seq!['.'] + extension != seq!['.', '.'],
    ensures
        stem.len() > 0 ==> stem_of(stem + seq!['.'] + extension) == stem && extension_of(
            stem + seq!['.'] + extension,
        ) == Some(extension),
        stem_of(seq!['.'] + extension) == seq!['.'] + extension,
        extension_of(seq!['.'] + extension) is None,
        stem_of(extension) == extension,
        extension_of(extension) is None,
{
    let name = stem + seq!['.'] + extension;
    lemma_last_dot_at(stem, extension);
    assert(name.take(stem.len() as int) =~= stem);
    assert(name.skip(stem.len() as int + 1) =~= extension);
    lemma_last_dot_at(Seq::empty(), extension);
    assert(Seq::<char>::empty() + seq!['.'] + extension =~= seq!['.'] + extension);
}

proof fn lemma_last_dot_at(stem: Seq<char>, extension: Seq<char>)
    requires
        is_free_of(extension, '.'),
    ensures
        crate::paths::last_dot(stem + seq!['.'] + extension) == stem.len(),
        crate::paths::last_dot(extension) == -1,
    decreases extension.len(),
{
    let name = stem + seq!['.'] + extension;
    if extension.len() > 0 {
        let rest = extension.drop_last();
        assert forall|i: int| 0 <= i < rest.len() implies #[trigger] rest[i] != '.' by {
            assert(rest[i] == extension[i]);
        }
        lemma_last_dot_at(stem, rest);
        assert(name.drop_last() =~= stem + seq!['.'] + rest);
        assert(name.last() == extension[extension.len() - 1]);
    } else {
        assert(name.last() == '.');
    }
}

/// A text in quotes is escaped character by character, and texts stand in a list in their
/// order, with a comma between each two.
pub proof fn law_quoted_texts_stand_in_order(
    a: Seq<char>,
    b: Seq<char>,
    before: Seq<Seq<char>>,
    after: Seq<Seq<char>>,
)
    requires
        before.len() > 0,
        after.len() > 0,
    ensures
        json_escaped(a + b) == json_escaped(a) + json_escaped(b),
        json_strings(before + after) == json_strings(before) + ","@ + json_strings(after),
        before.len() == 1 ==> json_strings(before) == seq!['"'] + json_escaped(before[0]) + seq!['"'],
{
    lemma_escaped(a, b);
    lemma_listed(before, after);
}

proof fn lemma_escaped(a: Seq<char>, b: Seq<char>)
    ensures
        json_escaped(a + b) == json_escaped(a) + json_escaped(b),
    decreases b.len(),
{
    let all = a + b;
    if b.len() == 0 {
        assert(all =~= a);
        assert(json_escaped(a) + json_escaped(b) =~= json_escaped(a));
    } else {
        let rest = b.drop_last();
        lemma_escaped(a, rest);
        assert(all.drop_last() =~= a + rest);
        let last = crate::json::json_escape(b.last());
        assert(json_escaped(a) + json_escaped(rest) + last =~= json_escaped(a) + (json_escaped(rest)
            + last));
    }
}

proof fn lemma_listed(a: Seq<Seq<char>>, b: Seq<Seq<char>>)
    requires
        a.len() > 0,
        b.len() > 0,
    ensures
        json_strings(a + b) == json_strings(a) + ","@ + json_strings(b),
    decreases b.len(),
{
    let all = a + b;
    assert(all.last() == b.last());
    if b.len() == 1 {
        assert(all.drop_last() =~= a);
        assert(b[0] == b.last());
    } else {
        let rest = b.drop_last();
        lemma_listed(a, rest);
        assert(all.drop_last() =~= a + rest);
        let last = json_string(b.last());
        assert(json_strings(a) + ","@ + json_strings(rest) + ","@ + last =~= json_strings(a) + ","@
            + (json_strings(rest) + ","@ + last));
    }
}

} // verus!
