//! Pattern matching, one strategy per kind of action.
//!
//! Paths match by subtree, domains match a host and its subdomains, commands match
//! token by token with anchored expressions, and MCP tools match `server/tool`.

use regex::Regex;
use vstd::prelude::*;

use crate::paths;
use crate::paths::within;
use crate::permission::resource::{Action, Resource};
use crate::text::{
    after_last, after_last_of, before, before_of, chars_of, ends, ends_with, lowercase, lowercase_of, replace_char, same,
    slice_of, split_once, split_once_of, strip_all, strip_all_of, trim, trim_end_char,
    trim_end_char_of, trim_of, words, words_of,
};

verus! {

/// A compiled rule pattern, ready to test against concrete resources.
#[derive(Debug)]
pub enum RuleMatcher {
    /// `*`: every target within the action's namespace.
    Any,
    /// Path subtree match.
    Path(String),
    /// A host and its subdomains.
    Domain(String),
    /// One anchored regular expression per token.
    CommandTokens(Vec<String>),
    /// `server/tool`, where `tool` may be `*`.
    McpTool { server: String, tool: String },
    /// A path and what lies below it, as it is written and made comparable.
    Subtree(String),
    /// One target, letter for letter.
    Exact(String),
    /// A command of these words and no others.
    Words(Vec<String>),
}

/// What a [`RuleMatcher`] holds.
pub enum MatcherModel {
    Any,
    Path(Seq<char>),
    Domain(Seq<char>),
    CommandTokens(Seq<Seq<char>>),
    McpTool { server: Seq<char>, tool: Seq<char> },
    Subtree(Seq<char>),
    Exact(Seq<char>),
    Words(Seq<Seq<char>>),
}

impl DeepView for RuleMatcher {
    type V = MatcherModel;

    open spec fn deep_view(&self) -> MatcherModel {
        match *self {
            RuleMatcher::Any => MatcherModel::Any,
            RuleMatcher::Path(p) => MatcherModel::Path(p@),
            RuleMatcher::Domain(d) => MatcherModel::Domain(d@),
            RuleMatcher::CommandTokens(tokens) => MatcherModel::CommandTokens(tokens.deep_view()),
            RuleMatcher::McpTool { server, tool } => MatcherModel::McpTool {
                server: server@,
                tool: tool@,
            },
            RuleMatcher::Subtree(path) => MatcherModel::Subtree(path@),
            RuleMatcher::Exact(target) => MatcherModel::Exact(target@),
            RuleMatcher::Words(words) => MatcherModel::Words(words.deep_view()),
        }
    }
}

/// Whether `regex::Regex::new` accepts a pattern.
pub uninterp spec fn regex_accepts(pattern: Seq<char>) -> bool;

/// Calls `regex::Regex::new`; whether it returns `Ok` depends on the pattern alone.
#[verifier::external_body]
fn regex_compiles(pattern: &str) -> (r: bool)
    ensures
        r == regex_accepts(pattern@),
{
    Regex::new(pattern).is_ok()
}

/// Whether an accepted pattern matches somewhere in a text; `false` for a pattern
/// that is not accepted.
pub uninterp spec fn regex_matches(pattern: Seq<char>, text: Seq<char>) -> bool;

/// Calls `regex::Regex::is_match`; the result depends on the pattern and the text
/// alone, and a pattern that does not compile matches nothing.
#[verifier::external_body]
fn regex_is_match(pattern: &str, text: &str) -> (r: bool)
    ensures
        r == regex_matches(pattern@, text@),
        r ==> regex_accepts(pattern@),
{
    Regex::new(pattern).map(|regex| regex.is_match(text)).unwrap_or(false)
}

/// A path made comparable across platforms: `/` separators, no drive letter, no
/// trailing separator.
pub open spec fn normalized(path: Seq<char>) -> Seq<char> {
    let unified = path.map_values(|c: char| if c == '\\' { '/' } else { c });
    let driveless = if has_drive(unified) {
        unified.skip(2)
    } else {
        unified
    };
    let trimmed = trim_end_char_of(driveless, '/');
    if trimmed.len() == 0 {
        "/"@
    } else {
        trimmed
    }
}

/// Whether a path begins like `c:/`.
pub open spec fn has_drive(path: Seq<char>) -> bool {
    path.len() >= 3 && is_letter(path[0]) && path[1] == ':' && path[2] == '/'
}

/// An ASCII letter.
pub open spec fn is_letter(c: char) -> bool {
    ('a' <= c && c <= 'z') || ('A' <= c && c <= 'Z')
}

/// Whether `candidate` lies in the subtree at `prefix`; `/` holds everything.
pub open spec fn path_contains_of(prefix: Seq<char>, candidate: Seq<char>) -> bool {
    prefix == "/"@ || within(prefix, candidate)
}

/// The part of a URL without a scheme that ends where its path, query or fragment
/// begins. A backslash begins a path as a slash does.
pub open spec fn authority_of(bare: Seq<char>) -> Seq<char> {
    before_of(before_of(before_of(before_of(bare, '/'), '\\'), '?'), '#')
}

/// The host that a URL names: lower case, without scheme, user, port, path, query
/// or fragment.
pub open spec fn host_of(target: Seq<char>) -> Seq<char> {
    let lower = lowercase_of(trim_of(target));
    let bare = strip_all_of(strip_all_of(lower, "https://"@), "http://"@);
    before_of(after_last_of(authority_of(bare), '@'), ':')
}

/// Whether the host of `target` is `domain` or below it.
pub open spec fn domain_matches_of(domain: Seq<char>, target: Seq<char>) -> bool {
    host_of(target) == domain || ends(host_of(target), "."@ + domain)
}

/// The expression that matches a whole token and nothing longer.
pub open spec fn anchored(token: Seq<char>) -> Seq<char> {
    "^(?:"@ + token + ")$"@
}

/// The anchored expressions of a command pattern.
pub open spec fn tokens_of(pattern: Seq<char>) -> Seq<Seq<char>> {
    words_of(pattern).map_values(|token: Seq<char>| anchored(token))
}

/// Whether each token of a command matches the expression at its place. The two
/// must be as many, and not none.
pub open spec fn command_matches_of(tokens: Seq<Seq<char>>, command: Seq<char>) -> bool {
    let actual = words_of(command);
    &&& tokens.len() > 0
    &&& tokens.len() == actual.len()
    &&& forall|i: int| 0 <= i < tokens.len() ==> regex_matches(#[trigger] tokens[i], actual[i])
}

/// What a rule's pattern compiles to. A command pattern with a token that is no
/// expression becomes a path over its literal text, so that a typo refuses rather
/// than leaving no policy at all.
pub open spec fn compiled(action: Action, pattern: Seq<char>) -> MatcherModel {
    if pattern == "*"@ {
        MatcherModel::Any
    } else {
        match action {
            Action::ReadFile | Action::WriteFile => MatcherModel::Path(normalized(pattern)),
            Action::ReadUrl | Action::ExecuteUrl => MatcherModel::Domain(
                lowercase_of(trim_of(pattern)),
            ),
            Action::Command | Action::Unsandboxed => {
                let tokens = tokens_of(pattern);
                if forall|i: int| 0 <= i < tokens.len() ==> regex_accepts(#[trigger] tokens[i]) {
                    MatcherModel::CommandTokens(tokens)
                } else {
                    MatcherModel::Path(pattern)
                }
            },
            Action::Mcp => match split_once_of(pattern, '/') {
                Some((server, tool)) => MatcherModel::McpTool { server, tool },
                None => MatcherModel::McpTool { server: pattern, tool: "*"@ },
            },
        }
    }
}

/// What a grant on a target is remembered as. A file stands for its subtree, a
/// tool for itself and a bare host for its subdomains, as in a rule. A command stands
/// for its words, taken literally; a URL with more to it than a host for itself alone.
pub open spec fn remembered(action: Action, target: Seq<char>) -> MatcherModel {
    match action {
        Action::ReadFile | Action::WriteFile | Action::Mcp => compiled(action, target),
        Action::ReadUrl | Action::ExecuteUrl => if covers(compiled(action, target), target) {
            compiled(action, target)
        } else {
            MatcherModel::Exact(target)
        },
        Action::Command | Action::Unsandboxed => MatcherModel::Words(words_of(target)),
    }
}

/// Whether a matcher covers a target.
pub open spec fn covers(matcher: MatcherModel, target: Seq<char>) -> bool {
    match matcher {
        MatcherModel::Any => true,
        MatcherModel::Path(prefix) => path_contains_of(prefix, normalized(target)),
        MatcherModel::Domain(domain) => domain_matches_of(domain, target),
        MatcherModel::CommandTokens(tokens) => command_matches_of(tokens, target),
        MatcherModel::McpTool { server, tool } => {
            let (res_server, res_tool) = match split_once_of(target, '/') {
                Some(parts) => parts,
                None => (target, Seq::empty()),
            };
            server == res_server && (tool == "*"@ || tool == res_tool)
        },
        MatcherModel::Subtree(path) => within(path, target) || path_contains_of(
            normalized(path),
            normalized(target),
        ),
        MatcherModel::Exact(text) => text == target,
        MatcherModel::Words(words) => words == words_of(target),
    }
}

impl RuleMatcher {
    /// Compiles a rule pattern for an action.
    pub fn compile(action: Action, pattern: &str) -> (r: Self)
        ensures
            r.deep_view() == compiled(action, pattern@),
    {
        if same(pattern, "*") {
            return RuleMatcher::Any;
        }
        match action {
            Action::ReadFile | Action::WriteFile => RuleMatcher::Path(normalize_path(pattern)),
            Action::ReadUrl | Action::ExecuteUrl => RuleMatcher::Domain(lowercase(&trim(pattern))),
            Action::Command | Action::Unsandboxed => {
                match compile_tokens(pattern) {
                    Some(tokens) => RuleMatcher::CommandTokens(tokens),
                    None => RuleMatcher::Path(pattern.to_owned()),
                }
            },
            Action::Mcp => match split_once(pattern, '/') {
                Some((server, tool)) => RuleMatcher::McpTool { server, tool },
                None => RuleMatcher::McpTool { server: pattern.to_owned(), tool: "*".to_owned() },
            },
        }
    }

    /// What a grant on a resource is remembered as.
    pub fn remember(resource: &Resource) -> (r: Self)
        ensures
            r.deep_view() == remembered(resource.action, resource.target@),
    {
        match resource.action {
            Action::ReadFile | Action::WriteFile | Action::Mcp => RuleMatcher::compile(
                resource.action,
                &resource.target,
            ),
            Action::ReadUrl | Action::ExecuteUrl => {
                let pattern = RuleMatcher::compile(resource.action, &resource.target);
                if pattern.matches(resource) {
                    pattern
                } else {
                    RuleMatcher::Exact(resource.target.clone())
                }
            },
            Action::Command | Action::Unsandboxed => RuleMatcher::Words(words(&resource.target)),
        }
    }

    /// Whether the pattern covers a resource's target.
    pub fn matches(&self, resource: &Resource) -> (r: bool)
        ensures
            r == covers(self.deep_view(), resource.target@),
    {
        match self {
            RuleMatcher::Any => true,
            RuleMatcher::Path(prefix) => path_contains(prefix, &normalize_path(&resource.target)),
            RuleMatcher::Domain(domain) => domain_matches(domain, &resource.target),
            RuleMatcher::CommandTokens(tokens) => command_matches(tokens, &resource.target),
            RuleMatcher::McpTool { server, tool } => {
                match split_once(&resource.target, '/') {
                    Some((res_server, res_tool)) => same(server, &res_server) && (same(tool, "*")
                        || same(tool, &res_tool)),
                    None => {
                        proof {
                            assert(tool@.len() == 0 ==> tool@ =~= Seq::<char>::empty());
                        }
                        same(server, &resource.target) && (same(tool, "*") || tool.as_str().is_empty())
                    },
                }
            },
            RuleMatcher::Subtree(path) => paths::starts_with(&resource.target, path)
                || path_contains(&normalize_path(path), &normalize_path(&resource.target)),
            RuleMatcher::Exact(text) => same(text, &resource.target),
            RuleMatcher::Words(expected) => same_words(expected, &words(&resource.target)),
        }
    }
}

/// Makes a path comparable across platforms.
pub fn normalize_path(path: &str) -> (r: String)
    ensures
        r@ == normalized(path@),
{
    let unified = replace_char(path, '\\', '/');
    let chars = chars_of(&unified);
    let driveless = if chars.len() >= 3 && letter(chars[0]) && chars[1] == ':' && chars[2] == '/' {
        let rest = slice_of(&chars, 2, chars.len());
        assert(rest@ =~= unified@.skip(2));
        rest
    } else {
        unified
    };
    let trimmed = trim_end_char(&driveless, '/');
    if trimmed.as_str().is_empty() {
        "/".to_owned()
    } else {
        trimmed
    }
}

fn letter(c: char) -> (r: bool)
    ensures
        r == is_letter(c),
{
    ('a' <= c && c <= 'z') || ('A' <= c && c <= 'Z')
}

/// Subtree containment, compared component by component: `/proj` does not hold
/// `/project-secrets`.
pub fn path_contains(prefix: &str, candidate: &str) -> (r: bool)
    ensures
        r == path_contains_of(prefix@, candidate@),
{
    same(prefix, "/") || paths::starts_with(candidate, prefix)
}

/// Host match including subdomains, ignoring everything else in a URL.
pub fn domain_matches(domain: &str, target: &str) -> (r: bool)
    ensures
        r == domain_matches_of(domain@, target@),
{
    proof {
        reveal_strlit("https://");
        reveal_strlit("http://");
    }
    let lower = lowercase(&trim(target));
    let bare = strip_all(&strip_all(&lower, "https://"), "http://");
    let authority = before(&before(&before(&before(&bare, '/'), '\\'), '?'), '#');
    let host = before(&after_last(&authority, '@'), ':');
    let mut suffix = ".".to_owned();
    suffix.push_str(domain);
    same(&host, domain) || ends_with(&host, &suffix)
}

fn same_words(a: &Vec<String>, b: &Vec<String>) -> (r: bool)
    ensures
        r == (a.deep_view() == b.deep_view()),
{
    assert(a.deep_view().len() == a@.len() && b.deep_view().len() == b@.len());
    if a.len() != b.len() {
        return false;
    }
    let mut i: usize = 0;
    while i < a.len()
        invariant
            i <= a@.len(),
            a@.len() == b@.len(),
            forall|k: int| 0 <= k < i ==> #[trigger] a.deep_view()[k] == b.deep_view()[k],
        decreases a@.len() - i,
    {
        assert(a.deep_view()[i as int] == a@[i as int]@);
        assert(b.deep_view()[i as int] == b@[i as int]@);
        if !same(&a[i], &b[i]) {
            return false;
        }
        i += 1;
    }
    assert(a.deep_view() =~= b.deep_view());
    true
}

/// One anchored expression per token, or `None` if one of them is no expression.
pub fn compile_tokens(pattern: &str) -> (r: Option<Vec<String>>)
    ensures
        match r {
            Some(tokens) => {
                &&& tokens.deep_view() == tokens_of(pattern@)
                &&& forall|i: int|
                    0 <= i < tokens.len() ==> regex_accepts(#[trigger] tokens_of(pattern@)[i])
            },
            None => exists|i: int|
                0 <= i < tokens_of(pattern@).len() && !regex_accepts(
                    #[trigger] tokens_of(pattern@)[i],
                ),
        },
{
    let parts = words(pattern);
    let mut tokens: Vec<String> = Vec::new();
    let mut i: usize = 0;
    while i < parts.len()
        invariant
            i <= parts@.len(),
            parts.deep_view() == words_of(pattern@),
            tokens@.len() == i,
            forall|k: int| 0 <= k < i ==> (#[trigger] tokens@[k])@ == tokens_of(pattern@)[k],
            forall|k: int| 0 <= k < i ==> regex_accepts(#[trigger] tokens_of(pattern@)[k]),
        decreases parts@.len() - i,
    {
        let mut token = "^(?:".to_owned();
        token.push_str(&parts[i]);
        token.push_str(")$");
        assert(parts.deep_view()[i as int] == parts@[i as int]@);
        assert(token@ == tokens_of(pattern@)[i as int]);
        if !regex_compiles(&token) {
            return None;
        }
        tokens.push(token);
        i += 1;
    }
    assert(tokens.deep_view() =~= tokens_of(pattern@));
    Some(tokens)
}

/// Token-by-token match against a command line. `npm run build` does not cover
/// `npm run build --prod`: stricter than expected costs a prompt.
pub fn command_matches(tokens: &Vec<String>, command: &str) -> (r: bool)
    ensures
        r == command_matches_of(tokens.deep_view(), command@),
{
    let actual = words(command);
    if tokens.len() == 0 || tokens.len() != actual.len() {
        return false;
    }
    let mut i: usize = 0;
    while i < tokens.len()
        invariant
            i <= tokens@.len(),
            tokens@.len() == actual@.len(),
            actual.deep_view() == words_of(command@),
            forall|k: int|
                0 <= k < i ==> regex_matches(
                    #[trigger] tokens.deep_view()[k],
                    words_of(command@)[k],
                ),
        decreases tokens@.len() - i,
    {
        assert(tokens.deep_view()[i as int] == tokens@[i as int]@);
        assert(actual.deep_view()[i as int] == actual@[i as int]@);
        if !regex_is_match(&tokens[i], &actual[i]) {
            return false;
        }
        i += 1;
    }
    true
}

} // verus!
