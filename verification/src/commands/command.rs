//! A discovered command.

use vstd::prelude::*;

use crate::text::chars_of;

verus! {

/// Optional head of a command file: metadata, and overrides for its turn.
#[derive(Debug, PartialEq, Eq)]
pub struct CommandFrontmatter {
    /// Shown in the `/` picker.
    pub description: Option<String>,
    /// Usage hint, such as `<pr-number> [--verbose]`.
    pub argument_hint: Option<String>,
    /// Tool restrictions for this command's turn.
    pub allowed_tools: Option<String>,
    /// The model for this command.
    pub model: Option<String>,
    /// Run in a subagent with its own context window.
    pub subagent: bool,
}

impl Default for CommandFrontmatter {
    fn default() -> (r: Self)
        ensures
            r == (CommandFrontmatter {
                description: None,
                argument_hint: None,
                allowed_tools: None,
                model: None,
                subagent: false,
            }),
    {
        CommandFrontmatter {
            description: None,
            argument_hint: None,
            allowed_tools: None,
            model: None,
            subagent: false,
        }
    }
}

impl Clone for CommandFrontmatter {
    fn clone(&self) -> (r: Self)
        ensures
            r == *self,
    {
        CommandFrontmatter {
            description: self.description.clone(),
            argument_hint: self.argument_hint.clone(),
            allowed_tools: self.allowed_tools.clone(),
            model: self.model.clone(),
            subagent: self.subagent,
        }
    }
}

/// A command read from a file.
#[derive(Debug, PartialEq, Eq)]
pub struct Command {
    /// Invocation name without the leading slash, with `:` between directories.
    pub name: String,
    pub frontmatter: CommandFrontmatter,
    /// Prompt template, before substitution.
    pub template: String,
    pub path: String,
    /// Project commands shadow user commands of the same name.
    pub is_project_local: bool,
}

impl Clone for Command {
    fn clone(&self) -> (r: Self)
        ensures
            r == *self,
    {
        Command {
            name: self.name.clone(),
            frontmatter: self.frontmatter.clone(),
            template: self.template.clone(),
            path: self.path.clone(),
            is_project_local: self.is_project_local,
        }
    }
}

/// An ASCII digit.
pub open spec fn is_digit(c: char) -> bool {
    '0' <= c && c <= '9'
}

/// The number of digits that a text begins with.
pub open spec fn digit_run(s: Seq<char>) -> int
    decreases s.len(),
{
    if s.len() > 0 && is_digit(s[0]) {
        1 + digit_run(s.drop_first())
    } else {
        0
    }
}

/// The number that digits stand for.
pub open spec fn number_of(digits: Seq<char>) -> nat
    decreases digits.len(),
{
    if digits.len() == 0 {
        0
    } else {
        number_of(digits.drop_last()) * 10 + (digits.last() as u32 - '0' as u32) as nat
    }
}

/// Whether a positional placeholder stands at `i`: a `$` before a digit, and not
/// behind another `$`.
pub open spec fn placeholder_at(s: Seq<char>, i: int) -> bool {
    &&& 0 <= i
    &&& i + 1 < s.len()
    &&& s[i] == '$'
    &&& is_digit(s[i + 1])
    &&& !(i > 0 && s[i - 1] == '$')
}

/// The position that the placeholder at `i` refers to; none that is too large to
/// be one.
pub open spec fn position_at(s: Seq<char>, i: int) -> nat {
    if placeholder_at(s, i) {
        let rest = s.skip(i + 1);
        let n = number_of(rest.take(digit_run(rest)));
        if n <= usize::MAX {
            n
        } else {
            0
        }
    } else {
        0
    }
}

/// The highest position that the first `n` characters refer to.
pub open spec fn highest_position(s: Seq<char>, n: int) -> nat
    decreases n,
{
    if n <= 0 {
        0
    } else {
        let before = highest_position(s, n - 1);
        if position_at(s, n - 1) > before {
            position_at(s, n - 1)
        } else {
            before
        }
    }
}

proof fn lemma_digit_run(s: Seq<char>)
    ensures
        0 <= digit_run(s) <= s.len(),
        forall|i: int| 0 <= i < digit_run(s) ==> is_digit(#[trigger] s[i]),
        digit_run(s) < s.len() ==> !is_digit(s[digit_run(s)]),
    decreases s.len(),
{
    if s.len() > 0 && is_digit(s[0]) {
        lemma_digit_run(s.drop_first());
        assert forall|i: int| 0 <= i < digit_run(s) implies is_digit(#[trigger] s[i]) by {
            if i > 0 {
                assert(s[i] == s.drop_first()[i - 1]);
            }
        }
    }
}

proof fn lemma_number_grows(digits: Seq<char>, n: int)
    requires
        0 <= n <= digits.len(),
        forall|i: int| 0 <= i < digits.len() ==> is_digit(#[trigger] digits[i]),
    ensures
        number_of(digits.take(n)) <= number_of(digits),
    decreases digits.len() - n,
{
    if n < digits.len() {
        assert(digits.take(n + 1).drop_last() =~= digits.take(n));
        assert(digits.take(n + 1).last() == digits[n]);
        lemma_number_grows(digits, n + 1);
    } else {
        assert(digits.take(n) =~= digits);
    }
}

fn digit(c: char) -> (r: bool)
    ensures
        r == is_digit(c),
{
    '0' <= c && c <= '9'
}

/// The number written in the digits from `from`, if it is not too large.
fn read_number(chars: &Vec<char>, from: usize) -> (r: Option<usize>)
    requires
        from <= chars@.len(),
    ensures
        ({
            let rest = chars@.skip(from as int);
            let n = number_of(rest.take(digit_run(rest)));
            match r {
                Some(value) => value == n,
                None => n > usize::MAX,
            }
        }),
{
    let ghost rest = chars@.skip(from as int);
    let ghost run = rest.take(digit_run(rest));
    proof {
        lemma_digit_run(rest);
    }
    let mut value: usize = 0;
    let mut i: usize = from;
    while i < chars.len() && digit(chars[i])
        invariant
            from <= i <= chars@.len(),
            rest == chars@.skip(from as int),
            run == rest.take(digit_run(rest)),
            0 <= digit_run(rest) <= rest.len(),
            forall|k: int| 0 <= k < digit_run(rest) ==> is_digit(#[trigger] rest[k]),
            digit_run(rest) < rest.len() ==> !is_digit(rest[digit_run(rest)]),
            i - from <= digit_run(rest),
            value == number_of(run.take(i - from)),
        decreases chars@.len() - i,
    {
        assert(rest[i - from] == chars@[i as int]);
        assert(i - from < digit_run(rest));
        assert(run.take(i + 1 - from).drop_last() =~= run.take(i - from));
        assert(run.take(i + 1 - from).last() == chars@[i as int]);
        let d: usize = (chars[i] as u32 - '0' as u32) as usize;
        proof {
            assert forall|k: int| 0 <= k < run.len() implies is_digit(#[trigger] run[k]) by {
                assert(run[k] == rest[k]);
            }
            lemma_number_grows(run, i + 1 - from);
        }
        if value > (usize::MAX - d) / 10 {
            assert(value * 10 + d > usize::MAX) by (nonlinear_arith)
                requires
                    value > (usize::MAX - d) / 10,
                    0 <= d <= usize::MAX,
            ;
            return None;
        }
        value = value * 10 + d;
        i += 1;
    }
    assert(i - from == digit_run(rest)) by {
        if i - from < digit_run(rest) {
            assert(is_digit(rest[i - from]));
            assert(rest[i - from] == chars@[i as int]);
        }
    }
    assert(run.take(i - from) =~= run);
    Some(value)
}

impl Command {
    /// Highest positional placeholder the template refers to. An invocation with
    /// fewer arguments is rejected before anything runs.
    pub fn required_positional_count(&self) -> (r: usize)
        ensures
            r == highest_position(self.template@, self.template@.len() as int),
    {
        let ghost s = self.template@;
        let chars = chars_of(&self.template);
        let mut highest: usize = 0;
        let mut i: usize = 0;
        while i < chars.len()
            invariant
                i <= chars@.len(),
                chars@ == s,
                highest == highest_position(s, i as int),
            decreases chars@.len() - i,
        {
            if chars.len() - i > 1 && chars[i] == '$' && digit(chars[i + 1]) && !(i > 0 && chars[i
                - 1] == '$') {
                match read_number(&chars, i + 1) {
                    Some(n) => {
                        if n > highest {
                            highest = n;
                        }
                    },
                    None => {},
                }
            }
            i += 1;
        }
        highest
    }
}

} // verus!
