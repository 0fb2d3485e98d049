//! What holds of expanding a command's template, from the template to the prompt that is
//! sent.

use vstd::prelude::*;

use crate::commands::command::{
    digit_run, highest_position, is_digit, number_of, placeholder_at, position_at,
};
use crate::commands::expand::{
    expanded, extracted, filled, lemma_plain, lemma_position, placeholder_of, position_mark,
    position_of, spliced, was_run, with_refusals, with_results, ExpansionModel, RequestModel,
};
use crate::text::{
    begins, decimal_of, find_text_of, is_white, lemma_find_unique, replace_of, trim_end_of, trim_of,
    words_of,
};

verus! {

/// Texts with something between each two of them: the first text, the first of `between`,
/// the second text, and so on to the last text.
pub open spec fn woven(texts: Seq<Seq<char>>, between: Seq<Seq<char>>) -> Seq<char>
    decreases between.len(),
{
    if between.len() == 0 {
        texts[0]
    } else {
        texts[0] + between[0] + woven(texts.drop_first(), between.drop_first())
    }
}

/// A shell command as a template has it.
pub open spec fn marked(command: Seq<char>) -> Seq<char> {
    "!`"@ + command + "`"@
}

/// Whether a text begins no shell command.
pub open spec fn unmarked(text: Seq<char>) -> bool {
    forall|k: int| 0 <= k < text.len() - 1 ==> !((#[trigger] text[k]) == '!' && text[k + 1] == '`')
}

/// A template made of texts and the shell commands between them.
pub open spec fn template_of(texts: Seq<Seq<char>>, commands: Seq<Seq<char>>) -> Seq<char> {
    woven(texts, Seq::new(commands.len(), |i: int| marked(commands[i])))
}

/// The placeholders from the `n`-th on.
pub open spec fn placeholders(n: nat, count: nat) -> Seq<Seq<char>> {
    Seq::new(count, |i: int| placeholder_of((n + i) as nat))
}

proof fn lemma_find_mark(text: Seq<char>, rest: Seq<char>)
    requires
        unmarked(text),
        rest.len() == 0 || begins(rest, "!`"@),
    ensures
        find_text_of(text + rest, "!`"@) == (if rest.len() == 0 {
            None
        } else {
            Some(text.len() as int)
        }),
    decreases text.len(),
{
    reveal_strlit("!`");
    let all = text + rest;
    if text.len() == 0 {
        assert(all =~= rest);
        if rest.len() == 0 {
            assert(!begins(all, "!`"@));
        }
    } else {
        if begins(all, "!`"@) {
            assert(all.take(2)[0] == '!' && all.take(2)[1] == '`');
            assert(all[0] == text[0]);
            if text.len() > 1 {
                assert(all[1] == text[1]);
            } else {
                assert(all[1] == rest[0]);
                assert(rest.take(2)[0] == '!');
            }
        }
        let tail = text.drop_first();
        assert(unmarked(tail)) by {
            assert forall|k: int| 0 <= k < tail.len() - 1 implies !((#[trigger] tail[k]) == '!'
                && tail[k + 1] == '`') by {
                assert(tail[k] == text[k + 1] && tail[k + 1] == text[k + 2]);
            }
        }
        assert(all.drop_first() =~= tail + rest);
        lemma_find_mark(tail, rest);
    }
}

/// Every shell command of a template is taken out, in order and whole, and nothing else
/// is: what stands between the commands stays, with a placeholder of its own in place of
/// each command.
pub proof fn law_commands_are_taken_out(texts: Seq<Seq<char>>, commands: Seq<Seq<char>>, n: nat)
    requires
        texts.len() == commands.len() + 1,
        forall|i: int| 0 <= i < texts.len() ==> unmarked(#[trigger] texts[i]),
        forall|i: int| 0 <= i < commands.len() ==> !(#[trigger] commands[i]).contains('`'),
    ensures
        extracted(template_of(texts, commands), n).0 == woven(
            texts,
            placeholders(n, commands.len()),
        ),
        extracted(template_of(texts, commands), n).1 == Seq::new(
            commands.len(),
            |i: int|
                RequestModel {
                    command: trim_of(commands[i]),
                    placeholder: placeholder_of((n + i) as nat),
                },
        ),
    decreases commands.len(),
{
    reveal_strlit("!`");
    reveal_strlit("`");
    let template = template_of(texts, commands);
    let marks = Seq::new(commands.len(), |i: int| marked(commands[i]));
    if commands.len() == 0 {
        lemma_find_mark(texts[0], Seq::empty());
        assert(texts[0] + Seq::<char>::empty() =~= texts[0]);
        assert(extracted(template, n).1 =~= Seq::new(
            commands.len(),
            |i: int|
                RequestModel {
                    command: trim_of(commands[i]),
                    placeholder: placeholder_of((n + i) as nat),
                },
        ));
    } else {
        let command = commands[0];
        let others = texts.drop_first();
        let later = commands.drop_first();
        let tail = template_of(others, later);
        assert(marks.drop_first() =~= Seq::new(later.len(), |i: int| marked(later[i])));
        let rest = marked(command) + tail;
        assert(template =~= texts[0] + rest);
        assert(rest.take(2) =~= "!`"@);
        lemma_find_mark(texts[0], rest);
        let start = texts[0].len() as int;
        let body = template.skip(start + 2);
        assert(body =~= command + "`"@ + tail);
        let end = command.len() as int;
        assert(body[end] == '`');
        assert forall|k: int| 0 <= k < end implies body[k] != '`' by {
            assert(body[k] == command[k]);
            assert(command.contains(command[k]));
        }
        lemma_find_unique(body, '`', end);
        assert(body.take(end) =~= command);
        assert(body.skip(end + 1) =~= tail);
        assert(template.take(start) =~= texts[0]);
        assert forall|i: int| 0 <= i < others.len() implies unmarked(#[trigger] others[i]) by {
            assert(others[i] == texts[i + 1]);
        }
        assert forall|i: int| 0 <= i < later.len() implies !(#[trigger] later[i]).contains('`') by {
            assert(later[i] == commands[i + 1]);
        }
        law_commands_are_taken_out(others, later, n + 1);
        let holes = placeholders(n, commands.len());
        assert(holes.drop_first() =~= placeholders(n + 1, later.len()));
        assert(holes[0] == placeholder_of(n));
        assert(texts[0] + placeholder_of(n) + woven(others, holes.drop_first()) == woven(
            texts,
            holes,
        ));
        assert(extracted(template, n).1 =~= Seq::new(
            commands.len(),
            |i: int|
                RequestModel {
                    command: trim_of(commands[i]),
                    placeholder: placeholder_of((n + i) as nat),
                },
        ));
    }
}

proof fn lemma_digits(n: nat)
    ensures
        decimal_of(n).len() > 0,
        forall|i: int| 0 <= i < decimal_of(n).len() ==> is_digit(#[trigger] decimal_of(n)[i]),
        n >= 10 ==> decimal_of(n).len() >= 2,
        n < 10 ==> decimal_of(n).len() == 1,
        number_of(decimal_of(n)) == n,
    decreases n,
{
    let digits = decimal_of(n);
    if n >= 10 {
        lemma_digits(n / 10);
        assert(digits.drop_last() =~= decimal_of(n / 10));
        assert forall|i: int| 0 <= i < digits.len() implies is_digit(#[trigger] digits[i]) by {
            if i < digits.len() - 1 {
                assert(digits[i] == decimal_of(n / 10)[i]);
            }
        }
    } else {
        assert(digits.drop_last() =~= Seq::<char>::empty());
        assert(number_of(Seq::<char>::empty()) == 0);
    }
}

/// Whether a text holds no zero character, which placeholders are set off by.
pub open spec fn is_plain(text: Seq<char>) -> bool {
    !text.contains('\u{0}')
}

proof fn lemma_begins_before(a: Seq<char>, z: Seq<char>, mark: Seq<char>)
    requires
        z.len() == 0 || z[0] == '\u{0}',
        is_plain(mark),
        mark.len() > 0,
    ensures
        begins(a + z, mark) == begins(a, mark),
{
    let all = a + z;
    if begins(all, mark) {
        if a.len() < mark.len() {
            assert(all.take(mark.len() as int)[a.len() as int] == z[0]);
            assert(mark.contains(mark[a.len() as int]));
        } else {
            assert(a.take(mark.len() as int) =~= all.take(mark.len() as int));
        }
    }
    if begins(a, mark) {
        assert(all.take(mark.len() as int) =~= a.take(mark.len() as int));
    }
}

proof fn lemma_mark_plain(n: nat)
    ensures
        is_plain(position_mark(n)),
        position_mark(n).len() > 1,
{
    reveal_strlit("$");
    lemma_digits(n);
    let mark = position_mark(n);
    if mark.contains('\u{0}') {
        let k = choose|k: int| 0 <= k < mark.len() && mark[k] == '\u{0}';
        if k > 0 {
            assert(mark[k] == decimal_of(n)[k - 1]);
        }
    }
}

proof fn lemma_position_before(a: Seq<char>, z: Seq<char>, count: int)
    requires
        z.len() == 0 || z[0] == '\u{0}',
    ensures
        position_of(a + z, count) == position_of(a, count),
    decreases count,
{
    if count > 0 {
        lemma_mark_plain(count as nat);
        lemma_begins_before(a, z, position_mark(count as nat));
        lemma_position_before(a, z, count - 1);
    }
}

proof fn lemma_filled_before(
    a: Seq<char>,
    z: Seq<char>,
    raw_args: Seq<char>,
    args: Seq<Seq<char>>,
)
    requires
        z.len() == 0 || z[0] == '\u{0}',
    ensures
        filled(a + z, raw_args, args) == filled(a, raw_args, args) + filled(z, raw_args, args),
    decreases a.len(),
{
    let all = a + z;
    let later = filled(z, raw_args, args);
    if a.len() == 0 {
        assert(all =~= z);
        assert(Seq::<char>::empty() + later =~= later);
    } else {
        reveal_strlit("$ARGUMENTS");
        assert(is_plain("$ARGUMENTS"@));
        lemma_begins_before(a, z, "$ARGUMENTS"@);
        let n = position_of(a, args.len() as int);
        lemma_position(a, args.len() as int);
        lemma_position_before(a, z, args.len() as int);
        if begins(a, "$ARGUMENTS"@) {
            assert(all.skip(10) =~= a.skip(10) + z);
            lemma_filled_before(a.skip(10), z, raw_args, args);
            assert(raw_args + (filled(a.skip(10), raw_args, args) + later) =~= raw_args + filled(
                a.skip(10),
                raw_args,
                args,
            ) + later);
        } else if n > 0 {
            lemma_mark_plain(n as nat);
            let len = position_mark(n as nat).len() as int;
            assert(all.skip(len) =~= a.skip(len) + z);
            lemma_filled_before(a.skip(len), z, raw_args, args);
            assert(args[n - 1] + (filled(a.skip(len), raw_args, args) + later) =~= args[n - 1]
                + filled(a.skip(len), raw_args, args) + later);
        } else {
            assert(all.skip(1) =~= a.skip(1) + z);
            assert(all[0] == a[0]);
            lemma_filled_before(a.skip(1), z, raw_args, args);
            assert(seq![a[0]] + (filled(a.skip(1), raw_args, args) + later) =~= seq![a[0]] + filled(
                a.skip(1),
                raw_args,
                args,
            ) + later);
        }
    }
}

proof fn lemma_placeholder(n: nat)
    ensures
        placeholder_of(n).len() > 15,
        placeholder_of(n)[0] == '\u{0}',
        placeholder_of(n).last() == '\u{0}',
        placeholder_of(n).subrange(1, 14) == "OCTANE_SHELL_"@,
        placeholder_of(n).subrange(14, placeholder_of(n).len() - 1) == decimal_of(n),
        !placeholder_of(n).contains('$'),
        forall|i: int|
            0 < i < placeholder_of(n).len() - 1 ==> (#[trigger] placeholder_of(n)[i]) != '\u{0}',
{
    reveal_strlit("\u{0}OCTANE_SHELL_");
    reveal_strlit("\u{0}");
    reveal_strlit("OCTANE_SHELL_");
    lemma_digits(n);
    let p = placeholder_of(n);
    let front = "\u{0}OCTANE_SHELL_"@;
    assert(front.len() == 14);
    assert(p.subrange(1, 14) =~= "OCTANE_SHELL_"@);
    assert(p.subrange(14, p.len() - 1) =~= decimal_of(n));
    assert forall|i: int| 0 < i < p.len() - 1 implies (#[trigger] p[i]) != '\u{0}' by {
        if i >= 14 {
            assert(p[i] == decimal_of(n)[i - 14]);
        } else {
            assert(p[i] == "OCTANE_SHELL_"@[i - 1]);
        }
    }
    if p.contains('$') {
        let k = choose|k: int| 0 <= k < p.len() && p[k] == '$';
        if 14 <= k < p.len() - 1 {
            assert(p[k] == decimal_of(n)[k - 14]);
        } else if 0 < k < 14 {
            assert(p[k] == "OCTANE_SHELL_"@[k - 1]);
        }
    }
}

/// Texts with the arguments put in.
pub open spec fn all_filled(
    texts: Seq<Seq<char>>,
    raw_args: Seq<char>,
    args: Seq<Seq<char>>,
) -> Seq<Seq<char>> {
    Seq::new(texts.len(), |i: int| filled(texts[i], raw_args, args))
}

proof fn lemma_filled_woven(
    texts: Seq<Seq<char>>,
    n: nat,
    count: nat,
    raw_args: Seq<char>,
    args: Seq<Seq<char>>,
)
    requires
        texts.len() == count + 1,
    ensures
        filled(woven(texts, placeholders(n, count)), raw_args, args) == woven(
            all_filled(texts, raw_args, args),
            placeholders(n, count),
        ),
    decreases count,
{
    let holes = placeholders(n, count);
    let done = all_filled(texts, raw_args, args);
    if count > 0 {
        let others = texts.drop_first();
        let later = (count - 1) as nat;
        assert(holes.drop_first() =~= placeholders(n + 1, later));
        assert(done.drop_first() =~= all_filled(others, raw_args, args));
        lemma_filled_woven(others, n + 1, later, raw_args, args);
        lemma_placeholder(n);
        let rest = woven(others, holes.drop_first());
        let z = holes[0] + rest;
        assert(holes[0] == placeholder_of(n));
        assert(z[0] == '\u{0}');
        assert(woven(texts, holes) =~= texts[0] + z);
        lemma_filled_before(texts[0], z, raw_args, args);
        lemma_plain(holes[0], rest, raw_args, args);
        assert(woven(done, holes) =~= done[0] + (holes[0] + woven(
            done.drop_first(),
            holes.drop_first(),
        )));
    }
}

/// Whether a text, behind a placeholder, could be taken for the beginning of one.
pub open spec fn like_a_placeholder(text: Seq<char>) -> bool {
    begins(text, "OCTANE_SHELL_"@)
}

/// Whether a stretch of a prompt between its texts is what stands for a command: its
/// placeholder, or what came of it.
spec fn stands_for(mark: Seq<char>) -> bool {
    ||| exists|n: nat| mark == #[trigger] placeholder_of(n)
    ||| is_plain(mark) && mark.len() > 0 && (mark[0] == '<' || mark[0] == '[')
}

proof fn lemma_decimal_injective(a: nat, b: nat)
    requires
        decimal_of(a) == decimal_of(b),
    ensures
        a == b,
{
    lemma_digits(a);
    lemma_digits(b);
}

proof fn lemma_replace_plain(plain: Seq<char>, rest: Seq<char>, from: Seq<char>, to: Seq<char>)
    requires
        is_plain(plain),
        from.len() > 0,
        from[0] == '\u{0}',
    ensures
        replace_of(plain + rest, from, to) == plain + replace_of(rest, from, to),
    decreases plain.len(),
{
    let all = plain + rest;
    if plain.len() == 0 {
        assert(all =~= rest);
        assert(plain + replace_of(rest, from, to) =~= replace_of(rest, from, to));
    } else {
        assert(plain.contains(plain[0]));
        if begins(all, from) {
            assert(all.take(from.len() as int)[0] == plain[0]);
        }
        let tail = plain.drop_first();
        assert(all.drop_first() =~= tail + rest);
        assert(is_plain(tail)) by {
            if tail.contains('\u{0}') {
                let k = choose|k: int| 0 <= k < tail.len() && tail[k] == '\u{0}';
                assert(plain[k + 1] == '\u{0}');
            }
        }
        lemma_replace_plain(tail, rest, from, to);
        assert(seq![plain[0]] + (tail + replace_of(rest, from, to)) =~= plain + replace_of(
            rest,
            from,
            to,
        ));
    }
}

proof fn lemma_other_placeholder(k: nat, i: nat, rest: Seq<char>, to: Seq<char>)
    requires
        k != i,
        !like_a_placeholder(rest),
    ensures
        replace_of(placeholder_of(k) + rest, placeholder_of(i), to) == placeholder_of(k)
            + replace_of(rest, placeholder_of(i), to),
{
    lemma_placeholder(k);
    lemma_placeholder(i);
    lemma_digits(k);
    lemma_digits(i);
    let p = placeholder_of(k);
    let q = placeholder_of(i);
    let all = p + rest;
    reveal_strlit("OCTANE_SHELL_");
    if begins(all, q) {
        let head = all.take(q.len() as int);
        assert(head == q);
        if q.len() < p.len() {
            assert(p[q.len() - 1] == head[q.len() - 1]);
        } else if q.len() > p.len() {
            assert(q[p.len() - 1] == head[p.len() - 1]);
            assert(head[p.len() - 1] == p[p.len() - 1]);
        } else {
            assert(q =~= p) by {
                assert forall|j: int| 0 <= j < q.len() implies q[j] == p[j] by {
                    assert(head[j] == all[j]);
                }
            }
            lemma_decimal_injective(k, i);
        }
    }
    let inner = p.subrange(1, p.len() - 1);
    assert(is_plain(inner)) by {
        if inner.contains('\u{0}') {
            let j = choose|j: int| 0 <= j < inner.len() && inner[j] == '\u{0}';
            assert(p[j + 1] == '\u{0}');
        }
    }
    let end = seq!['\u{0}'] + rest;
    assert(all.drop_first() =~= inner + end);
    lemma_replace_plain(inner, end, q, to);
    if begins(end, q) {
        let head = end.take(q.len() as int);
        assert(head == q);
        assert(rest.take(13) =~= "OCTANE_SHELL_"@) by {
            assert forall|j: int| 0 <= j < 13 implies rest[j] == "OCTANE_SHELL_"@[j] by {
                assert(head[j + 1] == rest[j]);
                assert(q.subrange(1, 14)[j] == q[j + 1]);
            }
        }
    }
    assert(end.drop_first() =~= rest);
    let done = replace_of(rest, q, to);
    assert(replace_of(end, q, to) == seq!['\u{0}'] + done);
    assert(seq![p[0]] + (inner + (seq!['\u{0}'] + done)) =~= p + done);
}

proof fn lemma_not_like(text: Seq<char>, next: Seq<char>)
    requires
        !like_a_placeholder(text),
        next.len() == 0 || next[0] == '\u{0}' || next[0] == '<' || next[0] == '[',
    ensures
        !like_a_placeholder(text + next),
{
    reveal_strlit("OCTANE_SHELL_");
    let word = "OCTANE_SHELL_"@;
    let all = text + next;
    if begins(all, word) {
        let head = all.take(13);
        assert(head == word);
        if text.len() >= 13 {
            assert(text.take(13) =~= word) by {
                assert forall|j: int| 0 <= j < 13 implies text[j] == word[j] by {
                    assert(head[j] == all[j]);
                }
            }
        } else {
            let j = text.len() as int;
            assert(head[j] == next[0]);
            assert(word[j] == next[0]);
        }
    }
}

/// What stands between texts, with one of it replaced.
spec fn exchanged(between: Seq<Seq<char>>, from: Seq<char>, to: Seq<char>) -> Seq<Seq<char>> {
    Seq::new(
        between.len(),
        |i: int|
            if between[i] == from {
                to
            } else {
                between[i]
            },
    )
}

proof fn lemma_replace_woven(
    texts: Seq<Seq<char>>,
    between: Seq<Seq<char>>,
    n: nat,
    to: Seq<char>,
)
    requires
        texts.len() == between.len() + 1,
        forall|i: int| 0 <= i < texts.len() ==> is_plain(#[trigger] texts[i]),
        forall|i: int| 0 < i < texts.len() ==> !like_a_placeholder(#[trigger] texts[i]),
        forall|i: int| 0 <= i < between.len() ==> stands_for(#[trigger] between[i]),
    ensures
        replace_of(woven(texts, between), placeholder_of(n), to) == woven(
            texts,
            exchanged(between, placeholder_of(n), to),
        ),
    decreases between.len(),
{
    let from = placeholder_of(n);
    lemma_placeholder(n);
    let after = exchanged(between, from, to);
    if between.len() == 0 {
        lemma_replace_plain(texts[0], Seq::empty(), from, to);
        assert(texts[0] + Seq::<char>::empty() =~= texts[0]);
        assert(replace_of(Seq::<char>::empty(), from, to) =~= Seq::<char>::empty());
    } else {
        let others = texts.drop_first();
        let later = between.drop_first();
        assert forall|i: int| 0 <= i < others.len() implies is_plain(#[trigger] others[i]) by {
            assert(others[i] == texts[i + 1]);
        }
        assert forall|i: int| 0 < i < others.len() implies !like_a_placeholder(
            #[trigger] others[i],
        ) by {
            assert(others[i] == texts[i + 1]);
        }
        assert forall|i: int| 0 <= i < later.len() implies stands_for(#[trigger] later[i]) by {
            assert(later[i] == between[i + 1]);
        }
        lemma_replace_woven(others, later, n, to);
        let rest = woven(others, later);
        let done = replace_of(rest, from, to);
        assert(after.drop_first() =~= exchanged(later, from, to));
        let mark = between[0];
        assert(stands_for(mark));
        assert(woven(texts, between) =~= texts[0] + (mark + rest));
        lemma_replace_plain(texts[0], mark + rest, from, to);
        assert(!like_a_placeholder(rest)) by {
            assert(!like_a_placeholder(texts[1]));
            assert(others[0] == texts[1]);
            if later.len() == 0 {
                assert(rest == others[0]);
            } else {
                let next = later[0] + woven(others.drop_first(), later.drop_first());
                assert(rest =~= others[0] + next);
                assert(stands_for(later[0]));
                if exists|m: nat| later[0] == #[trigger] placeholder_of(m) {
                    let m = choose|m: nat| later[0] == #[trigger] placeholder_of(m);
                    lemma_placeholder(m);
                }
                assert(next[0] == later[0][0]);
                lemma_not_like(others[0], next);
            }
        }
        if mark == from {
            let all = mark + rest;
            assert(all.take(from.len() as int) =~= from);
            assert(all.skip(from.len() as int) =~= rest);
            assert(replace_of(all, from, to) == to + done);
        } else if exists|m: nat| mark == #[trigger] placeholder_of(m) {
            let m = choose|m: nat| mark == #[trigger] placeholder_of(m);
            lemma_other_placeholder(m, n, rest, to);
        } else {
            lemma_replace_plain(mark, rest, from, to);
        }
        assert(texts[0] + (after[0] + done) =~= woven(texts, after));
    }
}

/// What an approved command's output becomes, as text.
pub open spec fn shown_output(command: Seq<char>, output: Seq<char>) -> Seq<char> {
    "<command-output command=\""@ + command + "\">\n"@ + trim_end_of(output)
        + "\n</command-output>"@
}

/// What a command that was not run becomes, as text.
pub open spec fn shown_refusal(command: Seq<char>) -> Seq<char> {
    "[not run: `"@ + command + "`]"@
}

/// The first output there is for a request.
pub open spec fn output_for(
    results: Seq<(RequestModel, Seq<char>)>,
    request: RequestModel,
) -> Option<Seq<char>>
    decreases results.len(),
{
    if results.len() == 0 {
        None
    } else if results[0].0 == request {
        Some(results[0].1)
    } else {
        output_for(results.drop_first(), request)
    }
}

/// What comes of each request: its output, or that it was not run.
pub open spec fn outcomes(
    requests: Seq<RequestModel>,
    results: Seq<(RequestModel, Seq<char>)>,
) -> Seq<Seq<char>> {
    Seq::new(
        requests.len(),
        |i: int|
            match output_for(results, requests[i]) {
                Some(output) => shown_output(requests[i].command, output),
                None => shown_refusal(requests[i].command),
            },
    )
}

/// What each request stands as once the first `n` results are in.
spec fn standing(
    requests: Seq<RequestModel>,
    results: Seq<(RequestModel, Seq<char>)>,
    n: int,
) -> Seq<Seq<char>> {
    Seq::new(
        requests.len(),
        |i: int|
            match output_for(results.take(n), requests[i]) {
                Some(output) => shown_output(requests[i].command, output),
                None => requests[i].placeholder,
            },
    )
}

/// What each request stands as once the first `n` of them are known to have been run or
/// not.
spec fn settled_to(
    requests: Seq<RequestModel>,
    results: Seq<(RequestModel, Seq<char>)>,
    n: int,
) -> Seq<Seq<char>> {
    Seq::new(
        requests.len(),
        |i: int|
            match output_for(results, requests[i]) {
                Some(output) => shown_output(requests[i].command, output),
                None => if i < n {
                    shown_refusal(requests[i].command)
                } else {
                    requests[i].placeholder
                },
            },
    )
}

proof fn lemma_output_grows(
    results: Seq<(RequestModel, Seq<char>)>,
    n: int,
    request: RequestModel,
)
    requires
        0 <= n < results.len(),
    ensures
        output_for(results.take(n + 1), request) == (if output_for(results.take(n), request)
            is Some {
            output_for(results.take(n), request)
        } else if results[n].0 == request {
            Some(results[n].1)
        } else {
            None
        }),
    decreases n,
{
    let now = results.take(n + 1);
    let before = results.take(n);
    if n == 0 {
        assert(now.drop_first() =~= Seq::<(RequestModel, Seq<char>)>::empty());
        assert(now[0] == results[0]);
    } else {
        let rest = results.drop_first();
        assert(now.drop_first() =~= rest.take(n));
        assert(before.drop_first() =~= rest.take(n - 1));
        assert(now[0] == results[0] && before[0] == results[0]);
        assert(rest[n - 1] == results[n]);
        lemma_output_grows(rest, n - 1, request);
    }
}

proof fn lemma_was_run(results: Seq<(RequestModel, Seq<char>)>, request: RequestModel)
    ensures
        was_run(results, request) <==> output_for(results, request) is Some,
    decreases results.len(),
{
    if results.len() > 0 {
        let rest = results.drop_first();
        lemma_was_run(rest, request);
        if was_run(rest, request) {
            let i = choose|i: int| 0 <= i < rest.len() && (#[trigger] rest[i]).0 == request;
            assert(results[i + 1].0 == request);
        }
        if was_run(results, request) {
            let i = choose|i: int| 0 <= i < results.len() && (#[trigger] results[i]).0 == request;
            if i > 0 {
                assert(rest[i - 1].0 == request);
            }
        }
        if results[0].0 == request {
            assert(was_run(results, request));
        }
    }
}

proof fn lemma_join_plain(a: Seq<char>, b: Seq<char>)
    requires
        is_plain(a),
        is_plain(b),
    ensures
        is_plain(a + b),
{
    if (a + b).contains('\u{0}') {
        let k = choose|k: int| 0 <= k < (a + b).len() && (a + b)[k] == '\u{0}';
        if k < a.len() {
            assert(a[k] == '\u{0}');
        } else {
            assert(b[k - a.len()] == '\u{0}');
        }
    }
}

proof fn lemma_trim_end_plain(s: Seq<char>)
    requires
        is_plain(s),
    ensures
        is_plain(trim_end_of(s)),
    decreases s.len(),
{
    if s.len() > 0 && is_white(s.last()) {
        let rest = s.drop_last();
        assert(is_plain(rest)) by {
            if rest.contains('\u{0}') {
                let k = choose|k: int| 0 <= k < rest.len() && rest[k] == '\u{0}';
                assert(s[k] == '\u{0}');
            }
        }
        lemma_trim_end_plain(rest);
    }
}

proof fn lemma_trim_plain(s: Seq<char>)
    requires
        is_plain(s),
    ensures
        is_plain(trim_of(s)),
    decreases s.len(),
{
    if s.len() > 0 && is_white(s[0]) {
        let rest = s.drop_first();
        assert(is_plain(rest)) by {
            if rest.contains('\u{0}') {
                let k = choose|k: int| 0 <= k < rest.len() && rest[k] == '\u{0}';
                assert(s[k + 1] == '\u{0}');
            }
        }
        lemma_trim_plain(rest);
    } else {
        lemma_trim_end_plain(s);
    }
}

proof fn lemma_outcome_stands(command: Seq<char>, output: Seq<char>)
    requires
        is_plain(command),
        is_plain(output),
    ensures
        stands_for(shown_output(command, output)),
        stands_for(shown_refusal(command)),
{
    reveal_strlit("<command-output command=\"");
    reveal_strlit("\">\n");
    reveal_strlit("\n</command-output>");
    reveal_strlit("[not run: `");
    reveal_strlit("`]");
    let open = "<command-output command=\""@;
    let mid = "\">\n"@;
    let close = "\n</command-output>"@;
    lemma_trim_end_plain(output);
    assert(is_plain(open));
    assert(is_plain(mid));
    assert(is_plain(close));
    lemma_join_plain(open, command);
    lemma_join_plain(open + command, mid);
    lemma_join_plain(open + command + mid, trim_end_of(output));
    lemma_join_plain(open + command + mid + trim_end_of(output), close);
    assert(shown_output(command, output)[0] == '<');
    assert(is_plain("[not run: `"@));
    assert(is_plain("`]"@));
    lemma_join_plain("[not run: `"@, command);
    lemma_join_plain("[not run: `"@ + command, "`]"@);
    assert(shown_refusal(command)[0] == '[');
}

/// Whether requests are those of one template: each with a placeholder of its own.
pub open spec fn numbered(requests: Seq<RequestModel>) -> bool {
    forall|i: int|
        0 <= i < requests.len() ==> (#[trigger] requests[i]).placeholder == placeholder_of(
            i as nat,
        )
}

proof fn lemma_with_results(
    texts: Seq<Seq<char>>,
    requests: Seq<RequestModel>,
    results: Seq<(RequestModel, Seq<char>)>,
    n: int,
)
    requires
        texts.len() == requests.len() + 1,
        numbered(requests),
        forall|i: int| 0 <= i < texts.len() ==> is_plain(#[trigger] texts[i]),
        forall|i: int| 0 < i < texts.len() ==> !like_a_placeholder(#[trigger] texts[i]),
        forall|i: int| 0 <= i < requests.len() ==> is_plain((#[trigger] requests[i]).command),
        forall|j: int|
            0 <= j < results.len() ==> requests.contains((#[trigger] results[j]).0) && is_plain(
                results[j].1,
            ),
        0 <= n <= results.len(),
    ensures
        with_results(woven(texts, placeholders(0, requests.len())), results, n) == woven(
            texts,
            standing(requests, results, n),
        ),
    decreases n,
{
    let start = woven(texts, placeholders(0, requests.len()));
    if n == 0 {
        assert(results.take(0) =~= Seq::<(RequestModel, Seq<char>)>::empty());
        assert(standing(requests, results, 0) =~= placeholders(0, requests.len()));
    } else {
        lemma_with_results(texts, requests, results, n - 1);
        let before = standing(requests, results, n - 1);
        let (request, output) = results[n - 1];
        assert(requests.contains(request));
        let at = choose|at: int| 0 <= at < requests.len() && requests[at] == request;
        assert(request.placeholder == placeholder_of(at as nat));
        lemma_standing(requests, results, n - 1);
        let to = shown_output(request.command, output);
        lemma_replace_woven(texts, before, at as nat, to);
        let after = exchanged(before, placeholder_of(at as nat), to);
        assert(after =~= standing(requests, results, n)) by {
            assert forall|i: int| 0 <= i < requests.len() implies after[i] == standing(
                requests,
                results,
                n,
            )[i] by {
                lemma_output_grows(results, n - 1, requests[i]);
                if i != at {
                    assert(requests[i].placeholder != requests[at].placeholder) by {
                        lemma_placeholder(i as nat);
                        lemma_placeholder(at as nat);
                        if placeholder_of(i as nat) == placeholder_of(at as nat) {
                            lemma_decimal_injective(i as nat, at as nat);
                        }
                    }
                }
                match output_for(results.take(n - 1), requests[i]) {
                    Some(shown) => {
                        lemma_placeholder(at as nat);
                        reveal_strlit("<command-output command=\"");
                        assert(before[i] == shown_output(requests[i].command, shown));
                        assert(before[i][0] == '<');
                    },
                    None => {},
                }
            }
        }
        assert(results.take(n - 1) =~= results.take(n - 1));
    }
}

proof fn lemma_standing(
    requests: Seq<RequestModel>,
    results: Seq<(RequestModel, Seq<char>)>,
    n: int,
)
    requires
        numbered(requests),
        forall|i: int| 0 <= i < requests.len() ==> is_plain((#[trigger] requests[i]).command),
        forall|j: int| 0 <= j < results.len() ==> is_plain((#[trigger] results[j]).1),
        0 <= n <= results.len(),
    ensures
        forall|i: int|
            0 <= i < requests.len() ==> stands_for(#[trigger] standing(requests, results, n)[i]),
{
    assert forall|i: int| 0 <= i < requests.len() implies stands_for(
        #[trigger] standing(requests, results, n)[i],
    ) by {
        let some = results.take(n);
        assert forall|j: int| 0 <= j < some.len() implies is_plain((#[trigger] some[j]).1) by {
            assert(some[j] == results[j]);
        }
        lemma_output_plain(some, requests[i]);
        match output_for(some, requests[i]) {
            Some(output) => {
                lemma_outcome_stands(requests[i].command, output);
            },
            None => {
                assert(requests[i].placeholder == placeholder_of(i as nat));
            },
        }
    }
}

proof fn lemma_output_plain(results: Seq<(RequestModel, Seq<char>)>, request: RequestModel)
    requires
        forall|j: int| 0 <= j < results.len() ==> is_plain((#[trigger] results[j]).1),
    ensures
        output_for(results, request) matches Some(output) ==> is_plain(output),
    decreases results.len(),
{
    if results.len() > 0 && results[0].0 != request {
        let rest = results.drop_first();
        assert forall|j: int| 0 <= j < rest.len() implies is_plain((#[trigger] rest[j]).1) by {
            assert(rest[j] == results[j + 1]);
        }
        lemma_output_plain(rest, request);
    }
}

proof fn lemma_with_refusals(
    texts: Seq<Seq<char>>,
    requests: Seq<RequestModel>,
    results: Seq<(RequestModel, Seq<char>)>,
    n: int,
)
    requires
        texts.len() == requests.len() + 1,
        numbered(requests),
        forall|i: int| 0 <= i < texts.len() ==> is_plain(#[trigger] texts[i]),
        forall|i: int| 0 < i < texts.len() ==> !like_a_placeholder(#[trigger] texts[i]),
        forall|i: int| 0 <= i < requests.len() ==> is_plain((#[trigger] requests[i]).command),
        forall|j: int| 0 <= j < results.len() ==> is_plain((#[trigger] results[j]).1),
        0 <= n <= requests.len(),
    ensures
        with_refusals(
            woven(texts, settled_to(requests, results, 0)),
            results,
            requests,
            n,
        ) == woven(texts, settled_to(requests, results, n)),
    decreases n,
{
    if n > 0 {
        lemma_with_refusals(texts, requests, results, n - 1);
        let before = settled_to(requests, results, n - 1);
        let request = requests[n - 1];
        lemma_was_run(results, request);
        let after = settled_to(requests, results, n);
        if was_run(results, request) {
            assert(after =~= before);
        } else {
            let to = shown_refusal(request.command);
            assert(request.placeholder == placeholder_of((n - 1) as nat));
            assert forall|i: int| 0 <= i < before.len() implies stands_for(#[trigger] before[i]) by {
                lemma_output_plain(results, requests[i]);
                match output_for(results, requests[i]) {
                    Some(output) => {
                        lemma_outcome_stands(requests[i].command, output);
                    },
                    None => {
                        assert(requests[i].placeholder == placeholder_of(i as nat));
                        lemma_outcome_stands(requests[i].command, Seq::empty());
                    },
                }
            }
            lemma_replace_woven(texts, before, (n - 1) as nat, to);
            let next = exchanged(before, placeholder_of((n - 1) as nat), to);
            lemma_placeholder((n - 1) as nat);
            assert(next =~= after) by {
                assert forall|i: int| 0 <= i < requests.len() implies next[i] == after[i] by {
                    lemma_placeholder(i as nat);
                    reveal_strlit("<command-output command=\"");
                    reveal_strlit("[not run: `");
                    if i != n - 1 && requests[i].placeholder == placeholder_of((n - 1) as nat) {
                        lemma_decimal_injective(i as nat, (n - 1) as nat);
                    }
                    match output_for(results, requests[i]) {
                        Some(output) => {
                            assert(before[i][0] == '<');
                        },
                        None => {
                            if i < n - 1 {
                                assert(before[i][0] == '[');
                            }
                        },
                    }
                }
            }
        }
    }
}

/// What comes of the shell commands stands in the prompt, each in its own place: what was
/// run is shown with its output, fenced under its command, and what was not is said not to
/// have been; what stands between the commands stays, and no placeholder is left. This
/// holds of every number of commands, and of results for any of them in any order.
pub proof fn law_every_command_shows_what_came_of_it(
    texts: Seq<Seq<char>>,
    requests: Seq<RequestModel>,
    results: Seq<(RequestModel, Seq<char>)>,
)
    requires
        texts.len() == requests.len() + 1,
        numbered(requests),
        forall|i: int| 0 <= i < texts.len() ==> is_plain(#[trigger] texts[i]),
        forall|i: int| 0 < i < texts.len() ==> !like_a_placeholder(#[trigger] texts[i]),
        forall|i: int| 0 <= i < requests.len() ==> is_plain((#[trigger] requests[i]).command),
        forall|j: int|
            0 <= j < results.len() ==> requests.contains((#[trigger] results[j]).0) && is_plain(
                results[j].1,
            ),
    ensures
        ({
            let expansion = ExpansionModel {
                prompt: woven(texts, placeholders(0, requests.len())),
                shell_requests: requests,
            };
            let sent = spliced(expansion, results);
            &&& sent == woven(texts, outcomes(requests, results))
            &&& is_plain(sent)
        }),
{
    let n = results.len() as int;
    lemma_with_results(texts, requests, results, n);
    assert(results.take(n) =~= results);
    assert(standing(requests, results, n) =~= settled_to(requests, results, 0));
    lemma_with_refusals(texts, requests, results, requests.len() as int);
    assert(settled_to(requests, results, requests.len() as int) =~= outcomes(requests, results));
    let between = outcomes(requests, results);
    assert forall|i: int| 0 <= i < between.len() implies is_plain(#[trigger] between[i]) by {
        lemma_output_plain(results, requests[i]);
        match output_for(results, requests[i]) {
            Some(output) => {
                lemma_outcome_plain(requests[i].command, output);
            },
            None => {
                lemma_outcome_plain(requests[i].command, Seq::empty());
            },
        }
    }
    lemma_woven_plain(texts, between);
}

proof fn lemma_outcome_plain(command: Seq<char>, output: Seq<char>)
    requires
        is_plain(command),
        is_plain(output),
    ensures
        is_plain(shown_output(command, output)),
        is_plain(shown_refusal(command)),
{
    lemma_outcome_stands(command, output);
    reveal_strlit("<command-output command=\"");
    reveal_strlit("[not run: `");
    assert forall|n: nat| #[trigger] placeholder_of(n)[0] == '\u{0}' by {
        lemma_placeholder(n);
    }
    assert(shown_output(command, output)[0] == '<');
    assert(shown_refusal(command)[0] == '[');
}

proof fn lemma_woven_plain(texts: Seq<Seq<char>>, between: Seq<Seq<char>>)
    requires
        texts.len() == between.len() + 1,
        forall|i: int| 0 <= i < texts.len() ==> is_plain(#[trigger] texts[i]),
        forall|i: int| 0 <= i < between.len() ==> is_plain(#[trigger] between[i]),
    ensures
        is_plain(woven(texts, between)),
    decreases between.len(),
{
    assert(is_plain(texts[0]));
    if between.len() > 0 {
        assert(is_plain(between[0]));
        let others = texts.drop_first();
        let later = between.drop_first();
        assert forall|i: int| 0 <= i < others.len() implies is_plain(#[trigger] others[i]) by {
            assert(others[i] == texts[i + 1]);
        }
        assert forall|i: int| 0 <= i < later.len() implies is_plain(#[trigger] later[i]) by {
            assert(later[i] == between[i + 1]);
        }
        lemma_woven_plain(others, later);
        lemma_join_plain(texts[0], between[0]);
        lemma_join_plain(texts[0] + between[0], woven(others, later));
    }
}

/// The requests that the commands of a template make.
pub open spec fn requests_for(commands: Seq<Seq<char>>) -> Seq<RequestModel> {
    Seq::new(
        commands.len(),
        |i: int|
            RequestModel { command: trim_of(commands[i]), placeholder: placeholder_of(i as nat) },
    )
}

/// From the template to the prompt: the arguments are put into the texts of a template and
/// into nothing else, each shell command is asked about as the template has it, and the
/// prompt that is sent has what came of each command in its place. Left out are texts with
/// a zero character, and those that read like the inside of a placeholder.
pub proof fn law_a_template_becomes_a_prompt(
    texts: Seq<Seq<char>>,
    commands: Seq<Seq<char>>,
    raw_args: Seq<char>,
    results: Seq<(RequestModel, Seq<char>)>,
)
    requires
        texts.len() == commands.len() + 1,
        forall|i: int| 0 <= i < texts.len() ==> unmarked(#[trigger] texts[i]),
        forall|i: int|
            0 <= i < commands.len() ==> !(#[trigger] commands[i]).contains('`') && is_plain(
                commands[i],
            ),
        ({
            let put_in = all_filled(texts, raw_args, words_of(raw_args));
            &&& forall|i: int| 0 <= i < texts.len() ==> is_plain(#[trigger] put_in[i])
            &&& forall|i: int| 0 < i < texts.len() ==> !like_a_placeholder(#[trigger] put_in[i])
        }),
        forall|j: int|
            0 <= j < results.len() ==> requests_for(commands).contains((#[trigger] results[j]).0)
                && is_plain(results[j].1),
    ensures
        ({
            let expansion = expanded(template_of(texts, commands), raw_args);
            let put_in = all_filled(texts, raw_args, words_of(raw_args));
            &&& expansion.shell_requests == requests_for(commands)
            &&& spliced(expansion, results) == woven(
                put_in,
                outcomes(requests_for(commands), results),
            )
        }),
{
    let template = template_of(texts, commands);
    let args = words_of(raw_args);
    let put_in = all_filled(texts, raw_args, args);
    let requests = requests_for(commands);
    assert forall|i: int| 0 <= i < commands.len() implies !(#[trigger] commands[i]).contains(
        '`',
    ) by {}
    law_commands_are_taken_out(texts, commands, 0);
    assert(extracted(template, 0).1 =~= requests);
    lemma_filled_woven(texts, 0, commands.len(), raw_args, args);
    assert forall|i: int| 0 <= i < requests.len() implies is_plain(
        (#[trigger] requests[i]).command,
    ) by {
        assert(is_plain(commands[i]));
        lemma_trim_plain(commands[i]);
    }
    law_every_command_shows_what_came_of_it(put_in, requests, results);
}

/// Where an argument goes: `$n` stands for the `n`-th word of what was typed, unless a
/// longer number that begins there is that of a word too; `$ARGUMENTS` stands for all of
/// it; and a character with which neither begins stands for itself.
pub proof fn law_an_argument_goes_where_it_is_named(
    text: Seq<char>,
    rest: Seq<char>,
    raw_args: Seq<char>,
    args: Seq<Seq<char>>,
    n: nat,
)
    ensures
        filled("$ARGUMENTS"@ + rest, raw_args, args) == raw_args + filled(rest, raw_args, args),
        0 < n <= args.len() && (forall|m: int|
            n < m <= args.len() ==> !begins(
                "$"@ + decimal_of(n) + rest,
                "$"@ + (#[trigger] decimal_of(m as nat)),
            )) ==> filled("$"@ + decimal_of(n) + rest, raw_args, args) == args[n - 1] + filled(
            rest,
            raw_args,
            args,
        ),
        text.len() > 0 && !begins(text, "$ARGUMENTS"@) && (forall|m: int|
            0 < m <= args.len() ==> !begins(text, "$"@ + (#[trigger] decimal_of(m as nat))))
            ==> filled(text, raw_args, args) == seq![text[0]] + filled(
            text.drop_first(),
            raw_args,
            args,
        ),
        filled(Seq::empty(), raw_args, args) == Seq::<char>::empty(),
{
    reveal_strlit("$ARGUMENTS");
    reveal_strlit("$");
    let typed = "$ARGUMENTS"@ + rest;
    assert(typed.take(10) =~= "$ARGUMENTS"@);
    assert(typed.skip(10) =~= rest);
    let mark = "$"@ + decimal_of(n);
    let one = mark + rest;
    if 0 < n <= args.len() && (forall|m: int|
        n < m <= args.len() ==> !begins(one, "$"@ + (#[trigger] decimal_of(m as nat)))) {
        assert(one.take(mark.len() as int) =~= mark);
        lemma_largest_position(one, n as int, args.len() as int);
        lemma_digits(n);
        if begins(one, "$ARGUMENTS"@) {
            assert(one.take(10)[1] == 'A');
            assert(one[1] == decimal_of(n)[0]);
        }
        assert(one.skip(mark.len() as int) =~= rest);
    }
    if text.len() > 0 && !begins(text, "$ARGUMENTS"@) && (forall|m: int|
        0 < m <= args.len() ==> !begins(text, "$"@ + (#[trigger] decimal_of(m as nat)))) {
        lemma_position(text, args.len() as int);
        let at = position_of(text, args.len() as int);
        if at > 0 {
            assert(!begins(text, "$"@ + decimal_of(at as nat)));
        }
        assert(text.skip(1) =~= text.drop_first());
    }
}

proof fn lemma_largest_position(text: Seq<char>, n: int, count: int)
    requires
        0 < n <= count,
        begins(text, position_mark(n as nat)),
        forall|m: int|
            n < m <= count ==> !begins(text, "$"@ + (#[trigger] decimal_of(m as nat))),
    ensures
        position_of(text, count) == n,
    decreases count,
{
    if count > n {
        assert(!begins(text, "$"@ + decimal_of(count as nat)));
        lemma_largest_position(text, n, count - 1);
    }
}

/// Every argument that a template names is asked for: where it names the `n`-th, and does
/// not double the `$`, at least `n` are; and no more are than the highest that is named.
pub proof fn law_every_named_argument_is_required(
    before: Seq<char>,
    n: nat,
    after: Seq<char>,
    template: Seq<char>,
)
    requires
        n <= usize::MAX,
        before.len() == 0 || before.last() != '$',
        after.len() == 0 || !is_digit(after[0]),
    ensures
        ({
            let named = before + "$"@ + decimal_of(n) + after;
            highest_position(named, named.len() as int) >= n
        }),
        ({
            let required = highest_position(template, template.len() as int);
            required > 0 ==> exists|i: int| #[trigger]
                placeholder_at(template, i) && number_of(
                    template.skip(i + 1).take(digit_run(template.skip(i + 1))),
                ) == required
        }),
        !template.contains('$') ==> highest_position(template, template.len() as int) == 0,
{
    reveal_strlit("$");
    let named = before + "$"@ + decimal_of(n) + after;
    let i = before.len() as int;
    let digits = decimal_of(n);
    lemma_digits(n);
    assert(named[i] == '$');
    assert(named[i + 1] == digits[0]);
    if i > 0 {
        assert(named[i - 1] == before.last());
    }
    assert(placeholder_at(named, i));
    let rest = named.skip(i + 1);
    assert(rest =~= digits + after);
    lemma_run(digits, after);
    assert(rest.take(digits.len() as int) =~= digits);
    assert(position_at(named, i) == n);
    lemma_highest(named, named.len() as int, i);
    lemma_highest_is_some(template, template.len() as int);
    if !template.contains('$') {
        let required = highest_position(template, template.len() as int);
        if required > 0 {
            let k = choose|k: int| #[trigger]
                placeholder_at(template, k) && position_at(template, k) == required;
            assert(template.contains(template[k]));
        }
    }
}

proof fn lemma_run(digits: Seq<char>, after: Seq<char>)
    requires
        forall|i: int| 0 <= i < digits.len() ==> is_digit(#[trigger] digits[i]),
        after.len() == 0 || !is_digit(after[0]),
    ensures
        digit_run(digits + after) == digits.len(),
    decreases digits.len(),
{
    let all = digits + after;
    if digits.len() == 0 {
        assert(all =~= after);
    } else {
        assert(all[0] == digits[0]);
        let rest = digits.drop_first();
        assert(all.drop_first() =~= rest + after);
        assert forall|i: int| 0 <= i < rest.len() implies is_digit(#[trigger] rest[i]) by {
            assert(rest[i] == digits[i + 1]);
        }
        lemma_run(rest, after);
    }
}

proof fn lemma_highest(s: Seq<char>, n: int, i: int)
    requires
        0 <= i < n,
    ensures
        highest_position(s, n) >= position_at(s, i),
    decreases n,
{
    if i < n - 1 {
        lemma_highest(s, n - 1, i);
    }
}

proof fn lemma_highest_is_some(s: Seq<char>, n: int)
    ensures
        highest_position(s, n) > 0 ==> exists|i: int| #[trigger]
            placeholder_at(s, i) && position_at(s, i) == highest_position(s, n),
    decreases n,
{
    if n > 0 {
        lemma_highest_is_some(s, n - 1);
        if position_at(s, n - 1) > highest_position(s, n - 1) {
            assert(placeholder_at(s, n - 1));
        }
    }
}

} // verus!
