//! What holds of patterns: which targets each kind of rule speaks of.

use vstd::prelude::*;

use crate::paths::components_of;
use crate::permission::laws::law_a_grant_covers_its_target;
use crate::permission::matcher::{
    anchored, authority_of, compiled, covers, host_of, normalized, regex_accepts, regex_matches,
    remembered, tokens_of, MatcherModel,
};
use crate::permission::resource::{Action, ResourceModel};
use crate::text::{
    after_last_of, ascii_lower, ascii_lowercase_of, before_of, begins, find_of, is_ascii_text,
    is_white, lemma_find, lemma_find_unique, lowercase_of, split_once_of, strip_all_of,
    trim_end_char_of, trim_end_of, trim_of, trim_start_of, words_of,
};

verus! {

/// `*` speaks of everything its action can be done to.
pub proof fn law_a_star_covers_everything(action: Action, target: Seq<char>)
    ensures
        covers(compiled(action, "*"@), target),
{
}

/// A file rule speaks of the path it names and of what lies below it, component by
/// component, and of nothing else; the root holds everything.
pub proof fn law_a_file_rule_covers_its_subtree(
    action: Action,
    pattern: Seq<char>,
    target: Seq<char>,
)
    requires
        action is ReadFile || action is WriteFile,
        pattern != "*"@,
    ensures
        covers(compiled(action, pattern), target) <==> normalized(pattern) == "/"@
            || components_of(normalized(pattern)).is_prefix_of(components_of(normalized(target))),
{
}

/// A path is compared as it is written, but for what differs between platforms: a path
/// with slashes, without a drive and without a slash at its end stays as it is; a slash
/// at the end, a drive before a rooted path, and which of the two separators is used make
/// no difference; and nothing at all is the root.
pub proof fn law_a_path_is_compared_as_written(path: Seq<char>, drive: char)
    requires
        ('a' <= drive && drive <= 'z') || ('A' <= drive && drive <= 'Z'),
    ensures
        !path.contains('\\') && path.len() > 0 && path.last() != '/' && !(path.len() >= 3
            && path[1] == ':' && path[2] == '/') ==> normalized(path) == path,
        path.len() > 0 && !(path.len() == 2 && path[1] == ':') ==> normalized(path.push('/'))
            == normalized(path),
        path.len() > 0 && path[0] == '/' && !(path.len() >= 3 && path[1] == ':' && (path[2] == '/'
            || path[2] == '\\')) ==> normalized(seq![drive, ':'] + path) == normalized(path),
        !normalized(path).contains('\\'),
        normalized(Seq::<char>::empty()) == "/"@,
{
    let unify = |c: char| if c == '\\' { '/' } else { c };
    let unified = path.map_values(unify);
    reveal_strlit("/");
    assert("/"@ =~= seq!['/']);
    assert(!unified.contains('\\')) by {
        if unified.contains('\\') {
            let k = choose|k: int| 0 <= k < unified.len() && unified[k] == '\\';
            assert(unified[k] == unify(path[k]));
        }
    }
    if !path.contains('\\') {
        assert(unified =~= path) by {
            assert forall|k: int| 0 <= k < path.len() implies unified[k] == path[k] by {
                assert(path.contains(path[k]));
            }
        }
    }
    let driveless = driveless_of(unified);
    lemma_trimmed(driveless);
    assert(!normalized(path).contains('\\')) by {
        if normalized(path).contains('\\') {
            let trimmed = trim_end_char_of(driveless, '/');
            let k = choose|k: int|
                0 <= k < normalized(path).len() && normalized(path)[k] == '\\';
            if trimmed.len() > 0 {
                assert(trimmed[k] == driveless[k]);
                if driveless.len() < unified.len() {
                    assert(driveless[k] == unified[k + 2]);
                    assert(unified.contains(unified[k + 2]));
                } else {
                    assert(unified.contains(unified[k]));
                }
            }
        }
    }
    // A slash more.
    let longer = path.push('/').map_values(unify);
    assert(longer =~= unified.push('/'));
    if path.len() > 0 && !(path.len() == 2 && path[1] == ':') {
        assert(driveless_of(longer) =~= driveless.push('/'));
        assert(driveless.push('/').drop_last() =~= driveless);
    }
    // A drive before it.
    if path.len() > 0 && path[0] == '/' {
        let driven = (seq![drive, ':'] + path).map_values(unify);
        assert(driven =~= seq![drive, ':'] + unified);
        assert(driven.skip(2) =~= unified);
        assert(unified[0] == '/');
    }
    let nothing = Seq::<char>::empty().map_values(unify);
    assert(nothing =~= Seq::<char>::empty());
}

spec fn driveless_of(unified: Seq<char>) -> Seq<char> {
    if unified.len() >= 3 && (('a' <= unified[0] && unified[0] <= 'z') || ('A' <= unified[0]
        && unified[0] <= 'Z')) && unified[1] == ':' && unified[2] == '/' {
        unified.skip(2)
    } else {
        unified
    }
}

proof fn lemma_trimmed(s: Seq<char>)
    ensures
        trim_end_char_of(s, '/').len() <= s.len(),
        trim_end_char_of(s, '/') == s.take(trim_end_char_of(s, '/').len() as int),
    decreases s.len(),
{
    if s.len() > 0 && s.last() == '/' {
        lemma_trimmed(s.drop_last());
        let n = trim_end_char_of(s, '/').len() as int;
        assert(s.drop_last().take(n) =~= s.take(n));
    } else {
        assert(s.take(s.len() as int) =~= s);
    }
}

/// A command rule speaks of the commands with as many words as it has, each of which its
/// word matches as an expression of its own, from beginning to end; not of a longer
/// command, nor of a shorter.
pub proof fn law_a_command_rule_covers_word_by_word(
    action: Action,
    pattern: Seq<char>,
    command: Seq<char>,
)
    requires
        action is Command || action is Unsandboxed,
        pattern != "*"@,
        forall|i: int|
            0 <= i < words_of(pattern).len() ==> regex_accepts(
                "^(?:"@ + (#[trigger] words_of(pattern)[i]) + ")$"@,
            ),
    ensures
        covers(compiled(action, pattern), command) <==> {
            &&& words_of(pattern).len() > 0
            &&& words_of(pattern).len() == words_of(command).len()
            &&& forall|i: int|
                0 <= i < words_of(pattern).len() ==> regex_matches(
                    "^(?:"@ + (#[trigger] words_of(pattern)[i]) + ")$"@,
                    words_of(command)[i],
                )
        },
{
    let tokens = tokens_of(pattern);
    let words = words_of(pattern);
    assert forall|i: int| 0 <= i < tokens.len() implies regex_accepts(#[trigger] tokens[i]) by {
        assert(tokens[i] == anchored(words[i]));
    }
    assert(compiled(action, pattern) == MatcherModel::CommandTokens(tokens));
    if covers(compiled(action, pattern), command) {
        assert forall|i: int| 0 <= i < words.len() implies regex_matches(
            "^(?:"@ + (#[trigger] words[i]) + ")$"@,
            words_of(command)[i],
        ) by {
            assert(regex_matches(tokens[i], words_of(command)[i]));
        }
    }
    if words.len() > 0 && words.len() == words_of(command).len() && (forall|i: int|
        0 <= i < words.len() ==> regex_matches(
            "^(?:"@ + (#[trigger] words[i]) + ")$"@,
            words_of(command)[i],
        )) {
        assert forall|i: int| 0 <= i < tokens.len() implies regex_matches(
            #[trigger] tokens[i],
            words_of(command)[i],
        ) by {
            assert(tokens[i] == anchored(words[i]));
        }
    }
}

/// A tool rule speaks of the one tool of the one server that it names; `*` for the tool,
/// or no tool at all, stands for every tool of the server.
pub proof fn law_a_tool_rule_names_server_and_tool(
    server: Seq<char>,
    tool: Seq<char>,
    asked_server: Seq<char>,
    asked_tool: Seq<char>,
)
    requires
        !server.contains('/'),
        !asked_server.contains('/'),
    ensures
        covers(compiled(Action::Mcp, server + "/"@ + tool), asked_server + "/"@ + asked_tool)
            <==> server == asked_server && (tool == "*"@ || tool == asked_tool),
        server != "*"@ ==> (covers(
            compiled(Action::Mcp, server),
            asked_server + "/"@ + asked_tool,
        ) <==> server == asked_server),
{
    reveal_strlit("/");
    reveal_strlit("*");
    lemma_split(server, tool);
    lemma_split(asked_server, asked_tool);
    lemma_find(server, '/');
    let whole = server + "/"@ + tool;
    assert(whole[server.len() as int] == '/');
    assert("*"@[0] == '*' && "*"@.len() == 1);
    if whole == "*"@ {
        assert(whole[server.len() as int] == "*"@[server.len() as int]);
    }
    if find_of(server, '/') < server.len() {
        assert(server.contains(server[find_of(server, '/')]));
    }
}

proof fn lemma_split(head: Seq<char>, tail: Seq<char>)
    requires
        !head.contains('/'),
    ensures
        split_once_of(head + "/"@ + tail, '/') == Some((head, tail)),
{
    reveal_strlit("/");
    let whole = head + "/"@ + tail;
    let n = head.len() as int;
    assert forall|i: int| 0 <= i < n implies whole[i] != '/' by {
        assert(whole[i] == head[i]);
        assert(head.contains(head[i]));
    }
    assert(whole[n] == '/');
    lemma_find_unique(whole, '/', n);
    assert(whole.take(n) =~= head);
    assert(whole.skip(n + 1) =~= tail);
}

/// A host rule speaks of the host it names and of the hosts below that: whose name ends
/// in a dot and that name.
pub proof fn law_a_host_rule_covers_its_subdomains(
    action: Action,
    pattern: Seq<char>,
    target: Seq<char>,
)
    requires
        action is ReadUrl || action is ExecuteUrl,
        pattern != "*"@,
    ensures
        covers(compiled(action, pattern), target) <==> {
            let domain = lowercase_of(trim_of(pattern));
            ||| host_of(target) == domain
            ||| host_of(target).len() > domain.len() && host_of(target).skip(
                host_of(target).len() - domain.len() - 1,
            ) == seq!['.'] + domain
        },
{
    reveal_strlit(".");
    assert("."@ =~= seq!['.']);
}

/// A character at which the host of a URL, with its user and port, is over.
pub open spec fn ends_authority(c: char) -> bool {
    c == '/' || c == '\\' || c == '?' || c == '#'
}

/// Whether a text holds none of the characters that end the host of a URL.
pub open spec fn in_authority(s: Seq<char>) -> bool {
    forall|i: int| 0 <= i < s.len() ==> !ends_authority(#[trigger] s[i])
}

/// The host is read out of a URL wherever it stands: behind a scheme and a user, if there
/// are any, and before a port, a path, a query or a fragment, whatever these hold.
pub proof fn law_the_host_is_read_out(
    scheme: Seq<char>,
    user: Seq<char>,
    host: Seq<char>,
    port: Seq<char>,
    rest: Seq<char>,
)
    requires
        scheme == "https://"@ || scheme == "http://"@ || scheme.len() == 0,
        user.len() == 0 || user.last() == '@',
        in_authority(user),
        host.len() > 0,
        in_authority(host),
        !host.contains('@'),
        !host.contains(':'),
        port.len() == 0 || port[0] == ':',
        in_authority(port),
        !port.contains('@'),
        rest.len() == 0 || ends_authority(rest[0]),
        ({
            let bare = user + host + port + rest;
            let url = scheme + bare;
            &&& !begins(bare, "https://"@)
            &&& !begins(bare, "http://"@)
            &&& is_ascii_text(url)
            &&& ascii_lowercase_of(url) == url
            &&& !is_white(url[0])
            &&& !is_white(url.last())
        }),
    ensures
        host_of(scheme + (user + host + port + rest)) == host,
{
    let bare = user + host + port + rest;
    let url = scheme + bare;
    reveal_strlit("https://");
    reveal_strlit("http://");
    assert("https://"@.len() == 8 && "http://"@.len() == 7);
    assert("https://"@[4] == 's' && "http://"@[4] == ':');
    assert(trim_start_of(url) == url);
    assert(trim_end_of(url) == url);
    assert(trim_of(url) == url);
    let secure = strip_all_of(url, "https://"@);
    let plain = strip_all_of(secure, "http://"@);
    assert(plain == bare) by {
        if scheme == "https://"@ {
            assert(url.take(8) =~= scheme);
            assert(url.skip(8) =~= bare);
            reveal_with_fuel(strip_all_of, 2);
            assert(secure == bare);
        } else if scheme == "http://"@ {
            assert(url.take(7) =~= scheme);
            assert(url.skip(7) =~= bare);
            if begins(url, "https://"@) {
                assert(url.take(8)[4] == "https://"@[4]);
                assert(url[4] == scheme[4]);
            }
            reveal_with_fuel(strip_all_of, 2);
        } else {
            assert(url =~= bare);
        }
    }
    let named = user + host + port;
    assert(bare =~= named + rest);
    assert(in_authority(named)) by {
        assert forall|i: int| 0 <= i < named.len() implies !ends_authority(#[trigger] named[i]) by {
            if i < user.len() {
                assert(named[i] == user[i]);
            } else if i < user.len() + host.len() {
                assert(named[i] == host[i - user.len()]);
            } else {
                assert(named[i] == port[i - user.len() - host.len()]);
            }
        }
    }
    lemma_authority(named, rest);
    let place = host + port;
    assert(named =~= user + place);
    assert(!place.contains('@')) by {
        if place.contains('@') {
            let k = choose|k: int| 0 <= k < place.len() && place[k] == '@';
            if k < host.len() {
                assert(host[k] == '@');
            } else {
                assert(port[k - host.len()] == '@');
            }
        }
    }
    lemma_after_user(user, place);
    lemma_before_tail(host, port, ':');
    lemma_before_starts(port, ':');
    assert(host + Seq::<char>::empty() =~= host);
}

proof fn lemma_before_tail(a: Seq<char>, x: Seq<char>, c: char)
    requires
        !a.contains(c),
    ensures
        before_of(a + x, c) == a + before_of(x, c),
{
    let all = a + x;
    lemma_find(x, c);
    let n = a.len() + find_of(x, c);
    assert forall|i: int| 0 <= i < n implies all[i] != c by {
        if i < a.len() {
            assert(all[i] == a[i]);
            assert(a.contains(a[i]));
        } else {
            assert(all[i] == x[i - a.len()]);
        }
    }
    if find_of(x, c) < x.len() {
        assert(all[n] == x[find_of(x, c)]);
    }
    lemma_find_unique(all, c, n);
    assert(before_of(all, c) =~= a + before_of(x, c));
}

proof fn lemma_before_starts(x: Seq<char>, c: char)
    ensures
        x.len() == 0 || x[0] == c ==> before_of(x, c) == Seq::<char>::empty(),
        before_of(x, c).len() > 0 ==> before_of(x, c)[0] == x[0],
{
    lemma_find(x, c);
    assert(x.len() == 0 || x[0] == c ==> before_of(x, c) =~= Seq::<char>::empty());
}

proof fn lemma_authority(named: Seq<char>, rest: Seq<char>)
    requires
        in_authority(named),
        rest.len() == 0 || ends_authority(rest[0]),
    ensures
        authority_of(named + rest) == named,
{
    assert(!named.contains('/') && !named.contains('\\') && !named.contains('?')
        && !named.contains('#')) by {
        assert forall|c: char| #[trigger] named.contains(c) implies !ends_authority(c) by {
            let k = choose|k: int| 0 <= k < named.len() && named[k] == c;
            assert(!ends_authority(named[k]));
        }
    }
    let a = before_of(rest, '/');
    let b = before_of(a, '\\');
    let c = before_of(b, '?');
    lemma_before_tail(named, rest, '/');
    lemma_before_tail(named, a, '\\');
    lemma_before_tail(named, b, '?');
    lemma_before_tail(named, c, '#');
    lemma_before_starts(rest, '/');
    lemma_before_starts(a, '\\');
    lemma_before_starts(b, '?');
    lemma_before_starts(c, '#');
    assert(before_of(c, '#') =~= Seq::<char>::empty());
    assert(named + Seq::<char>::empty() =~= named);
}

proof fn lemma_after_user(user: Seq<char>, place: Seq<char>)
    requires
        user.len() == 0 || user.last() == '@',
        !place.contains('@'),
    ensures
        after_last_of(user + place, '@') == place,
    decreases place.len(),
{
    let all = user + place;
    if place.len() == 0 {
        assert(all =~= user);
        assert(after_last_of(all, '@') =~= place);
    } else {
        let rest = place.drop_last();
        assert(all.drop_last() =~= user + rest);
        assert(all.last() == place.last());
        assert(place.contains(place.last())) by {
            assert(place[place.len() - 1] == place.last());
        }
        assert forall|c: char| rest.contains(c) implies place.contains(c) by {
            let k = choose|k: int| 0 <= k < rest.len() && rest[k] == c;
            assert(place[k] == c);
        }
        lemma_after_user(user, rest);
        assert(rest.push(place.last()) =~= place);
    }
}

/// The case of a URL's letters makes no difference to its host, and neither does white
/// space around it.
pub proof fn law_the_host_has_no_case(target: Seq<char>)
    requires
        is_ascii_text(target),
    ensures
        host_of(ascii_lowercase_of(target)) == host_of(target),
        host_of(trim_of(target)) == host_of(target),
{
    lemma_trim_ascii(target);
    let lower = ascii_lowercase_of(target);
    let trimmed = trim_of(target);
    assert(is_ascii_text(lower)) by {
        assert forall|i: int| 0 <= i < lower.len() implies (#[trigger] lower[i]) <= '\u{7f}' by {
            assert(target[i] <= '\u{7f}');
        }
    }
    lemma_trim_ascii(lower);
    assert(ascii_lowercase_of(ascii_lowercase_of(trimmed)) =~= ascii_lowercase_of(trimmed));
    lemma_trim_twice(target);
    lemma_trim_ascii(trimmed);
}

proof fn lemma_trim_start_ascii(s: Seq<char>)
    requires
        is_ascii_text(s),
    ensures
        trim_start_of(ascii_lowercase_of(s)) == ascii_lowercase_of(trim_start_of(s)),
        is_ascii_text(trim_start_of(s)),
        trim_start_of(s).len() > 0 ==> !is_white(trim_start_of(s)[0]),
    decreases s.len(),
{
    let lower = ascii_lowercase_of(s);
    if s.len() > 0 && is_white(s[0]) {
        let rest = s.drop_first();
        assert(lower.drop_first() =~= ascii_lowercase_of(rest));
        assert(is_ascii_text(rest)) by {
            assert forall|i: int| 0 <= i < rest.len() implies (#[trigger] rest[i]) <= '\u{7f}' by {
                assert(s[i + 1] <= '\u{7f}');
            }
        }
        lemma_trim_start_ascii(rest);
    } else if s.len() > 0 {
        assert(!is_white(ascii_lower(s[0])));
    }
}

proof fn lemma_trim_end_ascii(s: Seq<char>)
    requires
        is_ascii_text(s),
    ensures
        trim_end_of(ascii_lowercase_of(s)) == ascii_lowercase_of(trim_end_of(s)),
        is_ascii_text(trim_end_of(s)),
        trim_end_of(s).len() > 0 ==> !is_white(trim_end_of(s).last()),
        trim_end_of(s).len() > 0 ==> trim_end_of(s)[0] == s[0],
    decreases s.len(),
{
    let lower = ascii_lowercase_of(s);
    if s.len() > 0 && is_white(s.last()) {
        let rest = s.drop_last();
        assert(lower.drop_last() =~= ascii_lowercase_of(rest));
        assert(is_ascii_text(rest)) by {
            assert forall|i: int| 0 <= i < rest.len() implies (#[trigger] rest[i]) <= '\u{7f}' by {
                assert(s[i] <= '\u{7f}');
            }
        }
        lemma_trim_end_ascii(rest);
    } else if s.len() > 0 {
        assert(!is_white(ascii_lower(s.last())));
    }
}

proof fn lemma_trim_ascii(s: Seq<char>)
    requires
        is_ascii_text(s),
    ensures
        trim_of(ascii_lowercase_of(s)) == ascii_lowercase_of(trim_of(s)),
        is_ascii_text(trim_of(s)),
{
    lemma_trim_start_ascii(s);
    lemma_trim_end_ascii(s);
    lemma_trim_start_ascii(trim_end_of(s));
    lemma_trim_end_ascii(trim_start_of(s));
}

proof fn lemma_trim_twice(s: Seq<char>)
    requires
        is_ascii_text(s),
    ensures
        trim_of(trim_of(s)) == trim_of(s),
{
    lemma_trim_start_ascii(s);
    lemma_trim_end_ascii(s);
    lemma_trim_start_ascii(trim_end_of(s));
    lemma_trim_end_ascii(trim_start_of(s));
    let t = trim_of(s);
    if t.len() > 0 {
        assert(!is_white(t[0]));
        assert(!is_white(t.last()));
    }
}

/// What a grant is remembered as reaches no further than a rule of the same words would, but
/// for the very thing that was granted. A URL with a path is remembered as itself alone.
pub proof fn law_a_grant_is_no_broader_than_its_words(
    action: Action,
    target: Seq<char>,
    other: Seq<char>,
)
    requires
        !(action is Command || action is Unsandboxed),
    ensures
        covers(remembered(action, target), other) ==> other == target || covers(
            compiled(action, target),
            other,
        ),
        !covers(compiled(action, target), target) ==> (covers(remembered(action, target), other)
            <==> other == target),
{
    if action is ReadFile || action is WriteFile || action is Mcp {
        law_a_grant_covers_its_target(ResourceModel { action, target });
    }
}

} // verus!
