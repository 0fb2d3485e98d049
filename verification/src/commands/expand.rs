//! Template expansion, in two phases.
//!
//! [`expand`] substitutes arguments and collects the shell commands it would like
//! run, without running them. The caller asks the policy about each, and splices
//! the output in with [`Expansion::apply_shell_results`].

use vstd::prelude::*;

use crate::commands::command::{highest_position, Command};
use crate::commands::CommandError;
use crate::text::{
    begins, chars_of, decimal, decimal_of, find_from, find_of, find_text_from, find_text_of,
    lemma_find, lemma_find_text, replace, replace_of, same, slice_of, stands_at, trim, trim_end,
    trim_end_of, trim_of, words, words_of,
};

verus! {

/// A shell substitution awaiting approval and execution.
#[derive(Debug, PartialEq, Eq)]
pub struct ShellRequest {
    /// Command text, as the template has it.
    pub command: String,
    /// What stands for it in the prompt.
    pub placeholder: String,
}

impl Clone for ShellRequest {
    fn clone(&self) -> (r: Self)
        ensures
            r == *self,
    {
        ShellRequest { command: self.command.clone(), placeholder: self.placeholder.clone() }
    }
}

/// What a [`ShellRequest`] is.
pub struct RequestModel {
    pub command: Seq<char>,
    pub placeholder: Seq<char>,
}

impl DeepView for ShellRequest {
    type V = RequestModel;

    open spec fn deep_view(&self) -> RequestModel {
        RequestModel { command: self.command@, placeholder: self.placeholder@ }
    }
}

/// The result of expansion, before any shell command has run.
#[derive(Debug, PartialEq, Eq)]
pub struct Expansion {
    /// Prompt with its arguments resolved; shell placeholders intact.
    pub prompt: String,
    pub shell_requests: Vec<ShellRequest>,
}

impl Clone for Expansion {
    fn clone(&self) -> (r: Self)
        ensures
            r.deep_view() == self.deep_view(),
    {
        let shell_requests = self.shell_requests.clone();
        assert(shell_requests.deep_view() =~= self.shell_requests.deep_view());
        Expansion { prompt: self.prompt.clone(), shell_requests }
    }
}

/// What an [`Expansion`] is.
pub struct ExpansionModel {
    pub prompt: Seq<char>,
    pub shell_requests: Seq<RequestModel>,
}

impl DeepView for Expansion {
    type V = ExpansionModel;

    open spec fn deep_view(&self) -> ExpansionModel {
        ExpansionModel {
            prompt: self.prompt@,
            shell_requests: self.shell_requests.deep_view(),
        }
    }
}

/// What stands in the prompt for the `n`-th shell command.
pub open spec fn placeholder_of(n: nat) -> Seq<char> {
    "\u{0}OCTANE_SHELL_"@ + decimal_of(n) + "\u{0}"@
}

/// A template with each shell command replaced by its placeholder, and the
/// commands. A marker that is never closed is left as it stands.
pub open spec fn extracted(rest: Seq<char>, n: nat) -> (Seq<char>, Seq<RequestModel>)
    decreases rest.len(),
    via extracted_decreases
{
    match find_text_of(rest, "!`"@) {
        None => (rest, Seq::empty()),
        Some(start) => {
            let body = rest.skip(start + 2);
            let end = find_of(body, '`');
            if end == body.len() {
                (rest, Seq::empty())
            } else {
                let (text, requests) = extracted(body.skip(end + 1), n + 1);
                let request = RequestModel {
                    command: trim_of(body.take(end)),
                    placeholder: placeholder_of(n),
                };
                (rest.take(start) + placeholder_of(n) + text, seq![request] + requests)
            }
        },
    }
}

#[via_fn]
proof fn extracted_decreases(rest: Seq<char>, n: nat) {
    reveal_strlit("!`");
    lemma_find_text(rest, "!`"@);
    if let Some(start) = find_text_of(rest, "!`"@) {
        lemma_find(rest.skip(start + 2), '`');
    }
}

/// How the `n`-th argument is written in a template.
pub open spec fn position_mark(n: nat) -> Seq<char> {
    "$"@ + decimal_of(n)
}

/// The largest of `1..=count` whose mark begins `text`, or 0: `$12` is the twelfth
/// argument where there is one.
pub open spec fn position_of(text: Seq<char>, count: int) -> int
    decreases count,
{
    if count <= 0 {
        0
    } else if begins(text, position_mark(count as nat)) {
        count
    } else {
        position_of(text, count - 1)
    }
}

/// A template's text with `$ARGUMENTS` replaced by all that was typed and `$n` by
/// the `n`-th argument. What is put in is not looked at again.
pub open spec fn filled(text: Seq<char>, raw_args: Seq<char>, args: Seq<Seq<char>>) -> Seq<char>
    decreases text.len(),
    via filled_decreases
{
    let n = position_of(text, args.len() as int);
    if text.len() == 0 {
        Seq::empty()
    } else if begins(text, "$ARGUMENTS"@) {
        raw_args + filled(text.skip("$ARGUMENTS"@.len() as int), raw_args, args)
    } else if n > 0 {
        args[n - 1] + filled(text.skip(position_mark(n as nat).len() as int), raw_args, args)
    } else {
        seq![text[0]] + filled(text.skip(1), raw_args, args)
    }
}

#[via_fn]
proof fn filled_decreases(text: Seq<char>, raw_args: Seq<char>, args: Seq<Seq<char>>) {
    reveal_strlit("$ARGUMENTS");
    reveal_strlit("$");
    lemma_position(text, args.len() as int);
}

/// A position that is found is among the arguments, and its mark begins the text.
pub proof fn lemma_position(text: Seq<char>, count: int)
    ensures
        0 <= position_of(text, count),
        position_of(text, count) > 0 ==> position_of(text, count) <= count,
        position_of(text, count) > 0 ==> begins(
            text,
            position_mark(position_of(text, count) as nat),
        ),
    decreases count,
{
    if count > 0 && !begins(text, position_mark(count as nat)) {
        lemma_position(text, count - 1);
    }
}

/// What a template expands to with the text that follows the command.
pub open spec fn expanded(template: Seq<char>, raw_args: Seq<char>) -> ExpansionModel {
    let (text, shell_requests) = extracted(template, 0);
    ExpansionModel { prompt: filled(text, raw_args, words_of(raw_args)), shell_requests }
}

/// What an approved command's output becomes: fenced, with the command named.
pub open spec fn fenced(command: Seq<char>, output: Seq<char>) -> Seq<char> {
    "<command-output command=\""@ + command + "\">\n"@ + trim_end_of(output)
        + "\n</command-output>"@
}

/// What a command that was not approved becomes.
pub open spec fn not_run(command: Seq<char>) -> Seq<char> {
    "[not run: `"@ + command + "`]"@
}

/// A prompt with the first `n` results spliced in.
pub open spec fn with_results(
    prompt: Seq<char>,
    results: Seq<(RequestModel, Seq<char>)>,
    n: int,
) -> Seq<char>
    decreases n,
{
    if n <= 0 {
        prompt
    } else {
        replace_of(
            with_results(prompt, results, n - 1),
            results[n - 1].0.placeholder,
            fenced(results[n - 1].0.command, results[n - 1].1),
        )
    }
}

/// Whether a request is among the results.
pub open spec fn was_run(results: Seq<(RequestModel, Seq<char>)>, request: RequestModel) -> bool {
    exists|i: int| 0 <= i < results.len() && (#[trigger] results[i]).0 == request
}

/// A prompt in which the first `n` requests that were not run say so.
pub open spec fn with_refusals(
    prompt: Seq<char>,
    results: Seq<(RequestModel, Seq<char>)>,
    requests: Seq<RequestModel>,
    n: int,
) -> Seq<char>
    decreases n,
{
    if n <= 0 {
        prompt
    } else {
        let before = with_refusals(prompt, results, requests, n - 1);
        if was_run(results, requests[n - 1]) {
            before
        } else {
            replace_of(before, requests[n - 1].placeholder, not_run(requests[n - 1].command))
        }
    }
}

/// The prompt that is sent once it is known what ran.
pub open spec fn spliced(e: ExpansionModel, results: Seq<(RequestModel, Seq<char>)>) -> Seq<char> {
    with_refusals(
        with_results(e.prompt, results, results.len() as int),
        results,
        e.shell_requests,
        e.shell_requests.len() as int,
    )
}

/// Replaces text, where an empty pattern replaces nothing.
fn replace_any(s: &str, from: &str, to: &str) -> (r: String)
    ensures
        r@ == replace_of(s@, from@, to@),
{
    if from.is_empty() {
        s.to_owned()
    } else {
        replace(s, from, to)
    }
}

fn ran(results: &[(ShellRequest, String)], request: &ShellRequest) -> (r: bool)
    ensures
        r == was_run(results.deep_view(), request.deep_view()),
{
    let mut i: usize = 0;
    while i < results.len()
        invariant
            i <= results@.len(),
            forall|k: int|
                0 <= k < i ==> (#[trigger] results.deep_view()[k]).0 != request.deep_view(),
        decreases results@.len() - i,
    {
        assert(results.deep_view()[i as int] == results@[i as int].deep_view());
        if same(&results[i].0.command, &request.command) && same(
            &results[i].0.placeholder,
            &request.placeholder,
        ) {
            assert(results.deep_view()[i as int].0 == request.deep_view());
            return true;
        }
        i += 1;
    }
    false
}

impl Expansion {
    /// Whether a shell command has to be asked about.
    pub fn needs_shell(&self) -> (r: bool)
        ensures
            r == (self.deep_view().shell_requests.len() > 0),
    {
        self.shell_requests.len() > 0
    }

    /// Splices approved shell output into the prompt, and says of every other
    /// command that it was not run.
    pub fn apply_shell_results(self, results: &[(ShellRequest, String)]) -> (r: String)
        ensures
            r@ == spliced(self.deep_view(), results.deep_view()),
    {
        let ghost done = results.deep_view();
        let ghost requests = self.shell_requests.deep_view();
        let mut prompt = self.prompt.clone();
        let mut i: usize = 0;
        while i < results.len()
            invariant
                i <= results@.len(),
                done == results.deep_view(),
                prompt@ == with_results(self.prompt@, done, i as int),
            decreases results@.len() - i,
        {
            let request = &results[i].0;
            assert(done[i as int] == results@[i as int].deep_view());
            let mut replacement = "<command-output command=\"".to_owned();
            replacement.push_str(&request.command);
            replacement.push_str("\">\n");
            replacement.push_str(&trim_end(&results[i].1));
            replacement.push_str("\n</command-output>");
            prompt = replace_any(&prompt, &request.placeholder, &replacement);
            i += 1;
        }
        let ghost middle = prompt@;
        let mut k: usize = 0;
        while k < self.shell_requests.len()
            invariant
                k <= self.shell_requests@.len(),
                done == results.deep_view(),
                requests == self.shell_requests.deep_view(),
                prompt@ == with_refusals(middle, done, requests, k as int),
            decreases self.shell_requests@.len() - k,
        {
            let request = &self.shell_requests[k];
            assert(requests[k as int] == request.deep_view());
            if !ran(results, request) {
                let mut replacement = "[not run: `".to_owned();
                replacement.push_str(&request.command);
                replacement.push_str("`]");
                prompt = replace_any(&prompt, &request.placeholder, &replacement);
            }
            k += 1;
        }
        prompt
    }
}

/// Substitutes arguments and collects shell requests. Runs nothing. The requests
/// are taken out before the arguments go in, so no argument becomes part of one.
pub fn expand(command: &Command, raw_args: &str) -> (r: Result<Expansion, CommandError>)
    ensures
        ({
            let required = highest_position(
                command.template@,
                command.template@.len() as int,
            );
            let given = words_of(raw_args@).len();
            match r {
                Ok(expansion) => given >= required && expansion.deep_view() == expanded(
                    command.template@,
                    raw_args@,
                ),
                Err(CommandError::MissingArguments { name, expected, actual }) => {
                    &&& given < required
                    &&& name == command.name
                    &&& expected == required
                    &&& actual == given
                },
                Err(_) => false,
            }
        }),
{
    let positional = words(raw_args);
    let required = command.required_positional_count();
    if positional.len() < required {
        return Err(
            CommandError::MissingArguments {
                name: command.name.clone(),
                expected: required,
                actual: positional.len(),
            },
        );
    }
    let (text, shell_requests) = extract_shell(&command.template);
    let prompt = fill(&text, raw_args, &positional);
    Ok(Expansion { prompt, shell_requests })
}

/// The argument whose mark stands at `at`, counted from 1, or 0.
fn position_at(chars: &Vec<char>, at: usize, count: usize) -> (r: usize)
    requires
        at <= chars@.len(),
    ensures
        r == position_of(chars@.skip(at as int), count as int),
{
    let mut n: usize = count;
    while n > 0
        invariant
            at <= chars@.len(),
            position_of(chars@.skip(at as int), count as int) == position_of(
                chars@.skip(at as int),
                n as int,
            ),
        decreases n,
    {
        let mut mark = "$".to_owned();
        mark.push_str(&decimal(n as u64));
        if stands_at(chars, &chars_of(&mark), at) {
            return n;
        }
        n -= 1;
    }
    0
}

/// Puts the arguments into a template's text, in one pass.
fn fill(text: &str, raw_args: &str, positional: &Vec<String>) -> (r: String)
    ensures
        r@ == filled(text@, raw_args@, positional.deep_view()),
{
    proof {
        reveal_strlit("$ARGUMENTS");
        reveal_strlit("$");
    }
    let ghost args = positional.deep_view();
    let chars = chars_of(text);
    let all = chars_of("$ARGUMENTS");
    let mut r = String::new();
    let mut i: usize = 0;
    assert(text@.skip(0) =~= text@);
    assert(r@ + filled(text@, raw_args@, args) =~= filled(text@, raw_args@, args));
    while i < chars.len()
        invariant
            i <= chars@.len(),
            chars@ == text@,
            all@ == "$ARGUMENTS"@,
            "$ARGUMENTS"@.len() == 10,
            "$"@.len() == 1,
            args == positional.deep_view(),
            r@ + filled(text@.skip(i as int), raw_args@, args) == filled(text@, raw_args@, args),
        decreases chars@.len() - i,
    {
        let ghost rest = text@.skip(i as int);
        let ghost before = r@;
        let n = position_at(&chars, i, positional.len());
        proof {
            lemma_position(rest, args.len() as int);
        }
        if stands_at(&chars, &all, i) {
            r.push_str(raw_args);
            assert(rest.skip(10) =~= text@.skip(i + 10));
            assert(r@ + filled(text@.skip(i + 10), raw_args@, args) =~= before + (raw_args@
                + filled(text@.skip(i + 10), raw_args@, args)));
            i += 10;
        } else if n > 0 {
            let mark: usize = 1 + chars_of(&decimal(n as u64)).len();
            assert(mark == position_mark(n as nat).len());
            assert(args[n - 1] == positional@[n - 1]@);
            r.push_str(&positional[n - 1]);
            assert(rest.skip(mark as int) =~= text@.skip(i + mark));
            assert(r@ + filled(text@.skip(i + mark), raw_args@, args) =~= before + (args[n - 1]
                + filled(text@.skip(i + mark), raw_args@, args)));
            i += mark;
        } else {
            r.push(chars[i]);
            assert(rest.skip(1) =~= text@.skip(i + 1));
            assert(r@ + filled(text@.skip(i + 1), raw_args@, args) =~= before + (seq![text@[i as int]]
                + filled(text@.skip(i + 1), raw_args@, args)));
            i += 1;
        }
    }
    assert(text@.skip(i as int) =~= Seq::<char>::empty());
    assert(r@ + Seq::<char>::empty() =~= r@);
    r
}

/// Replaces each shell command with a placeholder.
pub fn extract_shell(template: &str) -> (r: (String, Vec<ShellRequest>))
    ensures
        (r.0@, r.1.deep_view()) == extracted(template@, 0),
{
    proof {
        reveal_strlit("!`");
    }
    let chars = chars_of(template);
    let marker = chars_of("!`");
    let mut out = String::new();
    let mut requests: Vec<ShellRequest> = Vec::new();
    let mut from: usize = 0;
    let ghost whole = extracted(template@, 0);
    let n: usize = chars.len();
    assert(template@.skip(0) =~= template@);
    assert(out@ + whole.0 =~= whole.0);
    assert(requests.deep_view() + whole.1 =~= whole.1);
    loop
        invariant
            from <= n == chars@.len(),
            chars@ == template@,
            marker@ == "!`"@,
            "!`"@.len() == 2,
            whole == extracted(template@, 0),
            out@ + extracted(template@.skip(from as int), requests@.len()).0 == whole.0,
            requests.deep_view() + extracted(template@.skip(from as int), requests@.len()).1
                == whole.1,
        decreases n - from,
    {
        let ghost rest = template@.skip(from as int);
        let ghost before = out@;
        let ghost earlier = requests.deep_view();
        let found = find_text_from(&chars, &marker, from);
        let unclosed: bool = match found {
            Some(start) => find_from(&chars, '`', start + 2) == n,
            None => true,
        };
        if unclosed {
            proof {
                if let Some(start) = found {
                    assert(rest.skip(start - from + 2) =~= chars@.skip(start + 2));
                }
                assert(earlier + Seq::<RequestModel>::empty() =~= earlier);
            }
            let tail = slice_of(&chars, from, n);
            assert(tail@ =~= rest);
            out.push_str(&tail);
            return (out, requests);
        }
        let start: usize = found.unwrap();
        let end = find_from(&chars, '`', start + 2);
        let ghost body = rest.skip(start - from + 2);
        assert(body =~= chars@.skip(start + 2));
        proof {
            lemma_find(body, '`');
        }
        let head = slice_of(&chars, from, start);
        assert(head@ =~= rest.take(start - from));
        let inner = slice_of(&chars, start + 2, end);
        assert(inner@ =~= body.take(end - start - 2));
        let mut placeholder = "\u{0}OCTANE_SHELL_".to_owned();
        placeholder.push_str(&decimal(requests.len() as u64));
        placeholder.push_str("\u{0}");
        let ghost mark = placeholder@;
        out.push_str(&head);
        out.push_str(&placeholder);
        let request = ShellRequest { command: trim(&inner), placeholder };
        requests.push(request);
        assert(requests.deep_view() =~= earlier.push(request.deep_view()));
        assert(body.skip(end - start - 2 + 1) =~= template@.skip(end + 1));
        let ghost next = extracted(template@.skip(end + 1), requests@.len());
        assert(out@ + next.0 =~= before + (head@ + mark + next.0));
        assert(requests.deep_view() + next.1 =~= earlier + (seq![request.deep_view()] + next.1));
        from = end + 1;
    }
}

/// What is asked of the shell depends on the template alone: no argument can reach
/// a command line.
pub proof fn law_arguments_never_reach_the_shell(
    template: Seq<char>,
    args: Seq<char>,
    others: Seq<char>,
)
    ensures
        expanded(template, args).shell_requests == expanded(template, others).shell_requests,
        expanded(template, args).shell_requests == extracted(template, 0).1,
{
}

/// A template without a marker asks for nothing, and only its arguments change.
pub proof fn law_no_marker_no_shell(template: Seq<char>, args: Seq<char>)
    requires
        find_text_of(template, "!`"@) is None,
    ensures
        expanded(template, args).shell_requests.len() == 0,
        expanded(template, args).prompt == filled(template, args, words_of(args)),
{
}

/// What holds no `$` passes through.
pub proof fn lemma_plain(plain: Seq<char>, rest: Seq<char>, raw_args: Seq<char>, args: Seq<Seq<char>>)
    requires
        !plain.contains('$'),
    ensures
        filled(plain + rest, raw_args, args) == plain + filled(rest, raw_args, args),
    decreases plain.len(),
{
    if plain.len() == 0 {
        assert(plain + rest =~= rest);
        assert(plain + filled(rest, raw_args, args) =~= filled(rest, raw_args, args));
    } else {
        let text = plain + rest;
        let tail = plain.skip(1);
        reveal_strlit("$ARGUMENTS");
        reveal_strlit("$");
        assert(plain.contains(plain[0]));
        assert(text[0] == plain[0]);
        if begins(text, "$ARGUMENTS"@) {
            assert(text.take(10)[0] == "$ARGUMENTS"@[0]);
        }
        let n = position_of(text, args.len() as int);
        lemma_position(text, args.len() as int);
        if n > 0 {
            let mark = position_mark(n as nat);
            assert(text.take(mark.len() as int)[0] == mark[0]);
        }
        assert(text.skip(1) =~= tail + rest);
        assert forall|c: char| tail.contains(c) implies plain.contains(c) by {
            let k = choose|k: int| 0 <= k < tail.len() && tail[k] == c;
            assert(plain[k + 1] == c);
        }
        lemma_plain(tail, rest, raw_args, args);
        assert(plain + filled(rest, raw_args, args) =~= seq![plain[0]] + (tail + filled(
            rest,
            raw_args,
            args,
        )));
    }
}

/// `$ARGUMENTS` stands for everything that was typed, and `$n` for the `n`-th word
/// of it: whatever the inserted text holds, it stands in the prompt as it is, and
/// only what follows it in the template is looked at further.
pub proof fn law_inserted_text_is_not_reread(
    plain: Seq<char>,
    rest: Seq<char>,
    raw_args: Seq<char>,
    args: Seq<Seq<char>>,
    n: nat,
)
    requires
        !plain.contains('$'),
    ensures
        filled(plain + "$ARGUMENTS"@ + rest, raw_args, args) == plain + raw_args + filled(
            rest,
            raw_args,
            args,
        ),
        0 < n <= args.len() && position_of(position_mark(n) + rest, args.len() as int) == n
            ==> filled(plain + position_mark(n) + rest, raw_args, args) == plain + args[n - 1]
            + filled(rest, raw_args, args),
{
    reveal_strlit("$ARGUMENTS");
    reveal_strlit("$");
    let typed = "$ARGUMENTS"@ + rest;
    assert(typed.take(10) =~= "$ARGUMENTS"@);
    assert(typed.skip(10) =~= rest);
    lemma_plain(plain, typed, raw_args, args);
    assert(plain + "$ARGUMENTS"@ + rest =~= plain + typed);
    assert(plain + raw_args + filled(rest, raw_args, args) =~= plain + (raw_args + filled(
        rest,
        raw_args,
        args,
    )));
    let mark = position_mark(n);
    let one = mark + rest;
    if 0 < n <= args.len() && position_of(one, args.len() as int) == n {
        lemma_plain(plain, one, raw_args, args);
        assert(plain + mark + rest =~= plain + one);
        lemma_position(one, args.len() as int);
        lemma_mark_is_no_word(n, rest);
        assert(one.skip(mark.len() as int) =~= rest);
        assert(plain + args[n - 1] + filled(rest, raw_args, args) =~= plain + (args[n - 1]
            + filled(rest, raw_args, args)));
    }
}

/// A text without a `$` is left as it stands.
pub proof fn law_plain_text_stays(text: Seq<char>, raw_args: Seq<char>, args: Seq<Seq<char>>)
    requires
        !text.contains('$'),
    ensures
        filled(text, raw_args, args) == text,
{
    let nothing = Seq::<char>::empty();
    lemma_plain(text, nothing, raw_args, args);
    assert(text + nothing =~= text);
}

proof fn lemma_mark_is_no_word(n: nat, rest: Seq<char>)
    ensures
        !begins(position_mark(n) + rest, "$ARGUMENTS"@),
{
    reveal_strlit("$ARGUMENTS");
    reveal_strlit("$");
    lemma_first_digit(n);
    let one = position_mark(n) + rest;
    if begins(one, "$ARGUMENTS"@) {
        assert(one.take(10)[1] == 'A');
        assert(one[1] == decimal_of(n)[0]);
    }
}

proof fn lemma_first_digit(n: nat)
    ensures
        decimal_of(n).len() > 0,
        '0' <= decimal_of(n)[0] <= '9',
    decreases n,
{
    if n >= 10 {
        lemma_first_digit(n / 10);
    }
}

} // verus!
