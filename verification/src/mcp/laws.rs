//! What holds of talking to servers: what a configuration means, what goes over the wire,
//! and what comes of a reply.

use vstd::prelude::*;

use crate::engine::tool::ToolErrorModel;
use crate::json::json_failure;
use crate::mcp::client::{
    block_text, blocks_text, fenced_instructions, initialized_of, output_of, reply_to, request_of,
    BlockModel, ClientModel, InitializeResult, ReceivedModel,
};
use crate::mcp::config::{
    accepted, declared, discovered, expanded, expanded_pairs, invalid, resolved_config, ConfigFile,
    ConfigModel, ServerConfig, Servers,
};
use crate::mcp::protocol::{ParamsModel, ResponseModel};
use crate::mcp::tool::arguments_of;
use crate::mcp::transport::{
    after_reply, data_of, header_at, header_fault, is_header_name, is_header_value, is_token,
    not_blank,
    payloads_of, request_headers, stored_headers, with_data, HttpModel, HttpReply,
};
use crate::mcp::McpErrorModel;
use crate::text::{
    ascii_lowercase_of, begins, decimal_of, join_of, lemma_find_unique, lines_of, trim_end_of,
    trim_of,
};
use crate::text_laws::{is_free_of, law_joining_is_one_after_another, lemma_find_text_unique};

verus! {

/// A variable stands for its value: what stands before it stays, its value takes its place,
/// and what follows is dealt with likewise. One that is not set is named as missing, and
/// one that is not closed is no variable.
pub proof fn law_a_variable_stands_for_its_value(
    before: Seq<char>,
    name: Seq<char>,
    rest: Seq<char>,
    env: Map<Seq<char>, Seq<char>>,
)
    requires
        forall|i: int|
            0 <= i < before.len() ==> !begins(
                #[trigger] (before + "${"@ + (name + seq!['}'] + rest)).skip(i),
                "${"@,
            ),
        is_free_of(name, '}'),
    ensures
        expanded(before + "${"@ + (name + seq!['}'] + rest), env) == (if !env.dom().contains(name) {
            Err(name)
        } else {
            match expanded(rest, env) {
                Ok(tail) => Ok(before + env[name] + tail),
                Err(missing) => Err(missing),
            }
        }),
        expanded("${"@ + name, env) == Ok::<_, Seq<char>>("${"@ + name),
{
    let after = name + seq!['}'] + rest;
    let value = before + "${"@ + after;
    assert(value.skip(before.len() as int) =~= "${"@ + after);
    assert(("${"@ + after).take("${"@.len() as int) =~= "${"@);
    lemma_find_text_unique(value, "${"@, before.len() as int);
    assert(value.take(before.len() as int) =~= before);
    assert(value.skip(before.len() as int + "${"@.len()) =~= after);
    lemma_find_unique(after, '}', name.len() as int);
    assert(after.take(name.len() as int) =~= name);
    assert(after.skip(name.len() as int + 1) =~= rest);
    let open = "${"@ + name;
    assert(open.skip(0) =~= open);
    assert(open.take("${"@.len() as int) =~= "${"@);
    lemma_find_text_unique(open, "${"@, 0);
    assert(open.skip("${"@.len() as int) =~= name);
    lemma_find_unique(name, '}', name.len() as int);
}

/// Every pair keeps its name and its place, and its value is expanded; where that fails,
/// the first that fails is named, with the variable that it wants.
pub proof fn law_every_pair_is_expanded(
    pairs: Seq<(Seq<char>, Seq<char>)>,
    env: Map<Seq<char>, Seq<char>>,
    i: int,
)
    ensures
        match expanded_pairs(pairs, env) {
            Ok(all) => {
                &&& all.len() == pairs.len()
                &&& 0 <= i < pairs.len() ==> all[i].0 == pairs[i].0 && expanded(pairs[i].1, env)
                    == Ok::<_, Seq<char>>(all[i].1)
            },
            Err(reason) => exists|k: int|
                0 <= k < pairs.len() && (#[trigger] expanded(pairs[k].1, env)) is Err && reason
                    == pairs[k].0 + " references ${"@ + expanded(pairs[k].1, env)->Err_0
                    + "}, which is not set"@ && forall|j: int|
                    0 <= j < k ==> (#[trigger] expanded(pairs[j].1, env)) is Ok,
        },
    decreases pairs.len(),
{
    if pairs.len() > 0 {
        let rest = pairs.drop_last();
        law_every_pair_is_expanded(rest, env, i);
        match expanded_pairs(rest, env) {
            Ok(before) => {
                let last = pairs.len() - 1;
                assert(pairs[last] == pairs.last());
                assert forall|j: int| 0 <= j < last implies (#[trigger] expanded(
                    pairs[j].1,
                    env,
                )) is Ok by {
                    law_every_pair_is_expanded(rest, env, j);
                    assert(rest[j] == pairs[j]);
                }
                if expanded(pairs.last().1, env) is Err {
                    assert(expanded(pairs[last].1, env) is Err);
                } else if 0 <= i < last {
                    assert(rest[i] == pairs[i]);
                }
            },
            Err(reason) => {
                let k = choose|k: int|
                    0 <= k < rest.len() && (#[trigger] expanded(rest[k].1, env)) is Err && reason
                        == rest[k].0 + " references ${"@ + expanded(rest[k].1, env)->Err_0
                        + "}, which is not set"@ && forall|j: int|
                        0 <= j < k ==> (#[trigger] expanded(rest[j].1, env)) is Ok;
                assert(rest[k] == pairs[k]);
                assert(expanded(pairs[k].1, env) is Err);
                assert forall|j: int| 0 <= j < k implies (#[trigger] expanded(
                    pairs[j].1,
                    env,
                )) is Ok by {
                    assert(rest[j] == pairs[j]);
                    assert(expanded(rest[j].1, env) is Ok);
                }
            },
        }
    }
}

/// Variables are filled in where they may stand, the environment, the headers and the URL,
/// and nowhere else: the program, its arguments and whether it is enabled stay as written.
pub proof fn law_variables_are_filled_in(config: ConfigModel, env: Map<Seq<char>, Seq<char>>)
    ensures
        match resolved_config(config, env) {
            Ok(resolved) => {
                &&& resolved.command == config.command
                &&& resolved.args == config.args
                &&& resolved.enabled == config.enabled
                &&& expanded_pairs(config.env, env) == Ok::<_, Seq<char>>(resolved.env)
                &&& expanded_pairs(config.headers, env) == Ok::<_, Seq<char>>(resolved.headers)
                &&& config.url is None ==> resolved.url is None
                &&& config.url matches Some(url) ==> resolved.url is Some && expanded(url, env)
                    == Ok::<_, Seq<char>>(resolved.url->0)
            },
            Err(_) => {
                ||| expanded_pairs(config.env, env) is Err
                ||| expanded_pairs(config.headers, env) is Err
                ||| config.url is Some && expanded(config.url->0, env) is Err
            },
        },
{
}

/// A server is started or called, one of the two.
pub proof fn law_a_server_is_started_or_called(config: ConfigModel)
    ensures
        invalid(config) is None <==> (config.command is Some) != (config.url is Some),
{
}

/// A file that cannot be used is reported and changes no server; one that can changes the
/// servers that it declares and no others, and a server that it declares wrongly is
/// reported and stays what it was.
pub proof fn law_a_file_changes_what_it_declares(
    files: Seq<ConfigFile>,
    file: ConfigFile,
    env: Map<Seq<char>, Seq<char>>,
    name: Seq<char>,
)
    ensures
        ({
            let before = discovered(files, env);
            let after = discovered(files.push(file), env);
            match file {
                ConfigFile::Unreadable { path, error } => {
                    &&& after.servers == before.servers
                    &&& after.errors == before.errors.push(
                        McpErrorModel::Config { server: path@, reason: error@ },
                    )
                },
                ConfigFile::Malformed { path, error } => {
                    &&& after.servers == before.servers
                    &&& after.errors == before.errors.push(
                        McpErrorModel::Malformed(path@ + ": "@ + error@),
                    )
                },
                ConfigFile::Read { servers } => {
                    &&& before.errors.is_prefix_of(after.errors)
                    &&& (!servers.keys_of().contains(name) || accepted(
                        name,
                        servers@[name].deep_view(),
                        env,
                    ) is Err) ==> after.servers.dom().contains(name)
                        == before.servers.dom().contains(name) && (before.servers.dom().contains(
                        name,
                    ) ==> after.servers[name] == before.servers[name])
                    &&& servers.keys_of().contains(name) && accepted(
                        name,
                        servers@[name].deep_view(),
                        env,
                    ) is Err ==> after.errors.contains(
                        accepted(name, servers@[name].deep_view(), env)->Err_0,
                    )
                },
            }
        }),
{
    assert(files.push(file).drop_last() =~= files);
    if let ConfigFile::Read { servers } = file {
        let names = servers.keys_of();
        assert(names.take(names.len() as int) =~= names);
        lemma_declared(
            discovered(files, env),
            servers.keys_of(),
            servers@,
            env,
            servers.keys_of().len() as int,
            name,
        );
    }
}

proof fn lemma_declared(
    found: Servers,
    names: Seq<Seq<char>>,
    configs: Map<Seq<char>, ServerConfig>,
    env: Map<Seq<char>, Seq<char>>,
    n: int,
    name: Seq<char>,
)
    requires
        0 <= n <= names.len(),
    ensures
        ({
            let after = declared(found, names, configs, env, n);
            let verdict = accepted(name, configs[name].deep_view(), env);
            &&& found.errors.is_prefix_of(after.errors)
            &&& (!names.take(n).contains(name) || verdict is Err) ==> after.servers.dom().contains(
                name,
            ) == found.servers.dom().contains(name) && (found.servers.dom().contains(name)
                ==> after.servers[name] == found.servers[name])
            &&& names.take(n).contains(name) && verdict is Err ==> after.errors.contains(
                verdict->Err_0,
            )
        }),
    decreases n,
{
    if n > 0 {
        lemma_declared(found, names, configs, env, n - 1, name);
        let before = declared(found, names, configs, env, n - 1);
        let after = declared(found, names, configs, env, n);
        let fewer = names.take(n - 1);
        let verdict = accepted(name, configs[name].deep_view(), env);
        assert(names.take(n) =~= fewer.push(names[n - 1]));
        if fewer.contains(name) {
            let i = fewer.index_of(name);
            assert(names.take(n)[i] == name);
            if verdict is Err {
                let k = before.errors.index_of(verdict->Err_0);
                assert(after.errors[k] == verdict->Err_0);
            }
        } else if names.take(n).contains(name) {
            let i = names.take(n).index_of(name);
            if i < n - 1 {
                assert(fewer[i] == name);
            }
            assert(names[n - 1] == name);
            if verdict is Err {
                assert(after.errors.last() == verdict->Err_0);
            }
        } else {
            assert(names.take(n)[n - 1] == names[n - 1]);
        }
    }
}

/// What a tool said is what its blocks say, each on lines of its own and in their order:
/// text as it is, and anything else as a note that it was left out.
pub proof fn law_every_block_is_read(
    a: Seq<BlockModel>,
    b: Seq<BlockModel>,
    block: BlockModel,
)
    ensures
        blocks_text(a + b) == blocks_text(a) + blocks_text(b),
        block.kind == Some("text"@) && block.text is Some ==> blocks_text(seq![block])
            == block.text->0 + "\n"@,
        block.kind is Some && block.kind != Some("text"@) ==> blocks_text(seq![block]) == "["@
            + block.kind->0 + " content omitted]\n"@,
        block.kind is None || block.kind == Some("text"@) && block.text is None ==> blocks_text(
            seq![block],
        ).len() == 0,
        output_of(a, false) == trim_end_of(blocks_text(a)),
        output_of(a, true) == "Tool reported an error:\n"@ + trim_end_of(blocks_text(a)),
{
    lemma_blocks(a, b);
    reveal_with_fuel(blocks_text, 2);
    let one = seq![block];
    assert(one.drop_last() =~= Seq::<BlockModel>::empty());
    assert(one.last() == block);
    assert(Seq::<char>::empty() + block_text(block) =~= block_text(block));
}

proof fn lemma_blocks(a: Seq<BlockModel>, b: Seq<BlockModel>)
    ensures
        blocks_text(a + b) == blocks_text(a) + blocks_text(b),
    decreases b.len(),
{
    let all = a + b;
    if b.len() == 0 {
        assert(all =~= a);
        assert(blocks_text(a) + blocks_text(b) =~= blocks_text(a));
    } else {
        let rest = b.drop_last();
        lemma_blocks(a, rest);
        assert(all.drop_last() =~= a + rest);
        assert(all.last() == b.last());
        assert(blocks_text(a) + blocks_text(rest) + block_text(b.last()) =~= blocks_text(a) + (
        blocks_text(rest) + block_text(b.last())));
    }
}

/// What a server says of itself is fenced as a third party's, under its name.
pub proof fn law_instructions_are_fenced(server: Seq<char>, text: Seq<char>)
    ensures
        fenced_instructions(server, text) == "<mcp-server-instructions server=\""@ + server
            + "\" trust=\"third-party\">\n"@ + trim_of(text) + "\n</mcp-server-instructions>"@,
{
}

/// What ends a wait: the reply with the request's id, by its result or its error, a line
/// that cannot be read, and a connection that ends, fails or is silent too long. Empty
/// lines, notifications and replies to other requests are passed over.
pub proof fn law_what_ends_a_wait(
    id: u64,
    text: Seq<char>,
    response: ResponseModel,
    fault: Seq<char>,
)
    ensures
        text.len() == 0 ==> reply_to(id, ReceivedModel::Line { text, message: Ok(response) }) is None,
        response.id != Some(id) ==> reply_to(
            id,
            ReceivedModel::Line { text, message: Ok(response) },
        ) is None,
        text.len() > 0 && response.id == Some(id) ==> reply_to(
            id,
            ReceivedModel::Line { text, message: Ok(response) },
        ) == Some(
            if response.error is Some {
                Err(
                    McpErrorModel::Rpc {
                        code: (response.error->0).0,
                        message: (response.error->0).1,
                    },
                )
            } else if response.result is Some {
                Ok(response.result->0)
            } else {
                Err(McpErrorModel::Malformed("response has neither result nor error"@))
            },
        ),
        text.len() > 0 ==> reply_to(id, ReceivedModel::Line { text, message: Err(fault) }) == Some(
            Err::<Seq<char>, _>(McpErrorModel::Malformed(fault + ": "@ + text)),
        ),
        reply_to(id, ReceivedModel::Closed) == Some(
            Err::<Seq<char>, _>(McpErrorModel::Transport("server closed the connection"@)),
        ),
        reply_to(id, ReceivedModel::Failed(fault)) == Some(
            Err::<Seq<char>, _>(McpErrorModel::Transport(fault)),
        ),
        reply_to(id, ReceivedModel::TimedOut) == Some(
            Err::<Seq<char>, _>(McpErrorModel::Timeout { seconds: 30 }),
        ),
{
}

/// When a server is taken on: when it speaks a version that this client does and what it
/// can do can be read. It keeps its name and its count of requests, and what it says of
/// itself is remembered; one that says nothing changes nothing of that.
pub proof fn law_when_a_server_is_taken_on(client: ClientModel, result: InitializeResult)
    ensures
        initialized_of(client, result) is Ok <==> {
            &&& result.protocol_version is Some
            &&& {
                let version = result.protocol_version->0@;
                version == "2025-11-25"@ || version == "2025-06-18"@ || version == "2025-03-26"@
            }
            &&& !(result.capabilities is Some && result.capabilities->0 is Err)
        },
        initialized_of(client, result) matches Ok(after) ==> {
            &&& after.server_name == client.server_name
            &&& after.next_id == client.next_id
            &&& result.instructions matches Some(text) ==> after.instructions == Some(text@)
            &&& result.instructions is None ==> after.instructions == client.instructions
            &&& result.capabilities is Some ==> after.capabilities == Some(
                result.capabilities->0->Ok_0,
            )
        },
        result.protocol_version is Some && !(result.protocol_version->0@ == "2025-11-25"@
            || result.protocol_version->0@ == "2025-06-18"@ || result.protocol_version->0@
            == "2025-03-26"@) ==> initialized_of(client, result) == Err::<ClientModel, _>(
            McpErrorModel::UnsupportedProtocol { server_version: result.protocol_version->0@ },
        ),
{
    let all = crate::mcp::protocol::supported_versions();
    assert(all[0] == "2025-11-25"@ && all[1] == "2025-06-18"@ && all[2] == "2025-03-26"@);
    assert(all.len() == 3);
}

/// A request carries the method and the parameters it was made with, under an id.
pub proof fn law_a_request_says_what_is_asked(
    client: ClientModel,
    method: Seq<char>,
    params: ParamsModel,
)
    ensures
        ({
            let request = request_of(client, method, params);
            &&& request.jsonrpc == "2.0"@
            &&& request.id == Some(client.next_id)
            &&& request.method == method
            &&& request.params == params
        }),
{
}

/// What a tool is called with: what the model wrote, word for word, where that is JSON; no
/// arguments where it wrote nothing.
pub proof fn law_arguments_are_handed_on(input: Seq<char>)
    ensures
        arguments_of(input, true) == Err::<Seq<char>, _>(ToolErrorModel::Cancelled),
        trim_of(input).len() == 0 ==> arguments_of(input, false) == Ok::<_, ToolErrorModel>("{}"@),
        trim_of(input).len() > 0 && json_failure(input) is None ==> arguments_of(input, false)
            == Ok::<_, ToolErrorModel>(input),
        trim_of(input).len() > 0 && json_failure(input) is Some ==> arguments_of(input, false)
            == Err::<Seq<char>, _>(
            ToolErrorModel::Recoverable(
                "arguments are not valid JSON: "@ + json_failure(input)->0,
            ),
        ),
{
}

/// Lines that carry texts.
pub open spec fn data_lines(texts: Seq<Seq<char>>) -> Seq<Seq<char>> {
    Seq::new(texts.len(), |i: int| "data: "@ + texts[i])
}

/// An event is what its data lines say, with line feeds between; a blank line or the end
/// ends it, and what follows is read likewise. Other lines say nothing, and a space
/// behind the colon is not part of the text.
pub proof fn law_an_event_is_all_its_data(
    texts: Seq<Seq<char>>,
    rest: Seq<Seq<char>>,
    line: Seq<char>,
    data: Seq<char>,
)
    requires
        texts.len() > 0,
        forall|i: int| 0 <= i < texts.len() ==> (#[trigger] texts[i]).len() > 0,
    ensures
        payloads_of(data_lines(texts) + seq![Seq::<char>::empty()] + rest, Seq::empty()) == seq![
            join_of(texts, "\n"@),
        ] + payloads_of(rest, Seq::empty()),
        payloads_of(data_lines(texts), Seq::empty()) == seq![join_of(texts, "\n"@)],
        line.len() > 0 && !begins(line, "data:"@) ==> payloads_of(seq![line] + rest, data)
            == payloads_of(rest, data),
        line.len() > 0 && line[0] != ' ' ==> data_of("data:"@ + line) == Some(line) && data_of(
            "data: "@ + line,
        ) == Some(line),
{
    let blank = Seq::<char>::empty();
    lemma_data_lines(texts, seq![blank] + rest, blank);
    assert(data_lines(texts) + (seq![blank] + rest) =~= data_lines(texts) + seq![blank] + rest);
    assert((seq![blank] + rest)[0] == blank);
    assert((seq![blank] + rest).drop_first() =~= rest);
    let none = Seq::<Seq<char>>::empty();
    lemma_data_lines(texts, none, blank);
    assert(data_lines(texts) + none =~= data_lines(texts));
    assert((seq![line] + rest)[0] == line);
    assert((seq![line] + rest).drop_first() =~= rest);
    if line.len() > 0 {
        lemma_data_of(line);
    }
    lemma_joined_is_not_empty(texts);
}

proof fn lemma_joined_is_not_empty(texts: Seq<Seq<char>>)
    requires
        texts.len() > 0,
        forall|i: int| 0 <= i < texts.len() ==> (#[trigger] texts[i]).len() > 0,
    ensures
        join_of(texts, "\n"@).len() > 0,
{
    assert(texts[texts.len() - 1].len() > 0);
    assert(texts[0].len() > 0);
}

proof fn lemma_data_of(line: Seq<char>)
    requires
        line.len() > 0,
    ensures
        data_of("data: "@ + line) == Some(line),
        line[0] != ' ' ==> data_of("data:"@ + line) == Some(line),
{
    reveal_strlit("data: ");
    reveal_strlit("data:");
    assert("data: "@.len() == 6 && "data:"@.len() == 5);
    assert("data: "@ =~= "data:"@ + seq![' ']);
    let spaced = "data: "@ + line;
    assert(spaced.take(5) =~= "data:"@);
    assert(spaced.skip(5)[0] == ' ');
    assert(spaced.skip(5).skip(1) =~= line);
    let tight = "data:"@ + line;
    assert(tight.take(5) =~= "data:"@);
    assert(tight.skip(5) =~= line);
}

proof fn lemma_data_lines(texts: Seq<Seq<char>>, rest: Seq<Seq<char>>, data: Seq<char>)
    requires
        forall|i: int| 0 <= i < texts.len() ==> (#[trigger] texts[i]).len() > 0,
    ensures
        texts.len() > 0 ==> payloads_of(data_lines(texts) + rest, data) == payloads_of(
            rest,
            with_data(data, join_of(texts, "\n"@)),
        ),
        texts.len() == 0 ==> payloads_of(data_lines(texts) + rest, data) == payloads_of(rest, data),
    decreases texts.len(),
{
    let lines = data_lines(texts) + rest;
    if texts.len() == 0 {
        assert(lines =~= rest);
    } else {
        let first = texts[0];
        let others = texts.drop_first();
        assert(first.len() > 0);
        assert forall|i: int| 0 <= i < others.len() implies (#[trigger] others[i]).len() > 0 by {
            assert(others[i] == texts[i + 1]);
        }
        assert(lines[0] == "data: "@ + first);
        assert(lines.drop_first() =~= data_lines(others) + rest);
        lemma_data_of(first);
        assert(lines[0].len() > 0);
        let more = with_data(data, first);
        lemma_data_lines(others, rest, more);
        if others.len() == 0 {
            assert(texts =~= seq![first]);
        } else {
            assert(texts =~= seq![first] + others);
            law_joining_is_one_after_another(seq![first], others, "\n"@);
            let tail = join_of(others, "\n"@);
            assert(data + "\n"@ + first + "\n"@ + tail =~= data + "\n"@ + (first + "\n"@ + tail));
        }
    }
}

/// A reply's messages are those that are not blank, in their order.
pub proof fn law_blank_messages_are_dropped(a: Seq<Seq<char>>, b: Seq<Seq<char>>, one: Seq<char>)
    ensures
        not_blank(a + b) == not_blank(a) + not_blank(b),
        trim_of(one).len() > 0 ==> not_blank(seq![one]) == seq![one],
        trim_of(one).len() == 0 ==> not_blank(seq![one]).len() == 0,
    decreases b.len(),
{
    reveal_with_fuel(not_blank, 2);
    assert(seq![one].drop_last() =~= Seq::<Seq<char>>::empty());
    assert(seq![one].last() == one);
    if trim_of(one).len() > 0 {
        assert(not_blank(seq![one]) =~= seq![one]);
    }
    let all = a + b;
    if b.len() == 0 {
        assert(all =~= a);
        assert(not_blank(a) + not_blank(b) =~= not_blank(a));
    } else {
        let rest = b.drop_last();
        law_blank_messages_are_dropped(a, rest, one);
        assert(all.drop_last() =~= a + rest);
        assert(all.last() == b.last());
        assert(not_blank(all) =~= not_blank(a) + not_blank(b));
    }
}

/// What a reply brings is queued behind what waits already, and nothing else of the
/// connection changes but the session, which is the one that the reply names, if it does.
/// A reply that only says that the request was accepted brings nothing; one whose body
/// cannot be read, or that refuses, is an error and brings nothing either.
pub proof fn law_a_reply_is_queued(http: HttpModel, reply: HttpReply)
    ensures
        ({
            let (after, fault) = after_reply(http, reply);
            let good = 200 <= reply.status < 300;
            &&& after.url == http.url
            &&& after.headers == http.headers
            &&& after.negotiated == http.negotiated
            &&& reply.session matches Some(session) ==> after.session == Some(session@)
            &&& reply.session is None ==> after.session == http.session
            &&& good && reply.status == 202 ==> fault is None && after.pending == http.pending
            &&& good && reply.status != 202 && reply.body is Ok ==> {
                let body = reply.body->Ok_0@;
                let stream = reply.content_type is Some && begins(
                    reply.content_type->0@,
                    "text/event-stream"@,
                );
                &&& fault is None
                &&& after.pending == http.pending + not_blank(
                    if stream {
                        payloads_of(lines_of(body), Seq::empty())
                    } else {
                        seq![body]
                    },
                )
            }
            &&& good && reply.status != 202 && reply.body is Err ==> {
                &&& fault == Some(McpErrorModel::Transport(reply.body->Err_0@))
                &&& after.pending == http.pending
            }
            &&& !good ==> {
                &&& fault == Some(
                    McpErrorModel::Transport(
                        decimal_of(reply.status as nat) + " "@ + http.url + ": "@ + trim_of(
                            if reply.body is Ok {
                                reply.body->Ok_0@
                            } else {
                                Seq::empty()
                            },
                        ),
                    ),
                )
                &&& after.pending == http.pending
            }
        }),
{
    reveal_strlit("text/event-stream");
    assert("text/event-stream"@.len() == 17);
}

/// Headers are all accepted or the first that is not is named, with its fault.
pub proof fn law_the_first_bad_header_is_named(headers: Seq<(Seq<char>, Seq<char>)>, i: int)
    ensures
        header_fault(headers) is None && 0 <= i < headers.len() ==> is_header_name(headers[i].0)
            && is_header_value(headers[i].1),
        header_fault(headers) matches Some(fault) ==> exists|k: int|
            0 <= k < headers.len() && fault == "header "@ + (#[trigger] headers[k]).0 + ": "@ + (
            if !is_header_name(headers[k].0) {
                "invalid HTTP header name"@
            } else {
                "failed to parse header value"@
            }) && (!is_header_name(headers[k].0) || !is_header_value(headers[k].1))
                && header_fault(headers.take(k)) is None,
    decreases headers.len(),
{
    if headers.len() > 0 {
        let rest = headers.drop_last();
        law_the_first_bad_header_is_named(rest, i);
        if 0 <= i < rest.len() {
            assert(rest[i] == headers[i]);
        }
        if header_fault(rest) is Some {
            let fault = header_fault(rest)->0;
            let k = choose|k: int|
                0 <= k < rest.len() && fault == "header "@ + (#[trigger] rest[k]).0 + ": "@ + (
                if !is_header_name(rest[k].0) {
                    "invalid HTTP header name"@
                } else {
                    "failed to parse header value"@
                }) && (!is_header_name(rest[k].0) || !is_header_value(rest[k].1)) && header_fault(
                    rest.take(k),
                ) is None;
            assert(headers[k] == rest[k]);
            assert(headers.take(k) =~= rest.take(k));
        } else if header_fault(headers) is Some {
            let k = headers.len() - 1;
            assert(headers[k] == headers.last());
            assert(headers.take(k) =~= rest);
        }
    }
}

/// Nothing is sent that was not configured: every header is one of those that were given,
/// by its name in lower case.
pub proof fn law_no_header_is_made_up(pairs: Seq<(Seq<char>, Seq<char>)>, i: int)
    requires
        0 <= i < stored_headers(pairs).len(),
    ensures
        exists|k: int|
            0 <= k < pairs.len() && stored_headers(pairs)[i] == (
                ascii_lowercase_of((#[trigger] pairs[k]).0),
                pairs[k].1,
            ),
    decreases pairs.len(),
{
    if pairs.len() > 0 {
        let rest = pairs.drop_last();
        let before = stored_headers(rest);
        let name = ascii_lowercase_of(pairs.last().0);
        lemma_header_at(before, name);
        if i < before.len() && stored_headers(pairs)[i] == before[i] {
            law_no_header_is_made_up(rest, i);
            let k = choose|k: int|
                0 <= k < rest.len() && before[i] == (
                    ascii_lowercase_of((#[trigger] rest[k]).0),
                    rest[k].1,
                );
            assert(pairs[k] == rest[k]);
        } else {
            assert(pairs[pairs.len() - 1] == pairs.last());
            assert(stored_headers(pairs)[i] == (name, pairs.last().1));
        }
    }
}

proof fn lemma_header_at(headers: Seq<(Seq<char>, Seq<char>)>, name: Seq<char>)
    ensures
        0 <= header_at(headers, name) <= headers.len(),
    decreases headers.len(),
{
    if headers.len() > 0 && headers[0].0 != name {
        lemma_header_at(headers.drop_first(), name);
    }
}

/// A request says that it sends JSON and takes JSON or a stream, behind what was
/// configured.
pub proof fn law_a_request_says_what_it_takes(headers: Seq<(Seq<char>, Seq<char>)>)
    ensures
        request_headers(headers) == headers + seq![
            ("content-type"@, "application/json"@),
            ("accept"@, "application/json, text/event-stream"@),
        ],
{
    assert(request_headers(headers) =~= headers + seq![
        ("content-type"@, "application/json"@),
        ("accept"@, "application/json, text/event-stream"@),
    ]);
}

/// What may be sent as a header: a name of letters, digits and a few marks, and a value
/// without control characters but for the tabulator.
pub proof fn law_what_may_be_a_header(name: Seq<char>, value: Seq<char>, c: char)
    ensures
        is_header_value(value) <==> forall|i: int|
            0 <= i < value.len() ==> is_printed((#[trigger] value[i]) as u32),
        name.len() == 0 ==> !is_header_name(name),
        is_token(c) ==> (c as u32) > 32 && (c as u32) < 127 && c != '(' && c != ')' && c != ','
            && c != '/' && c != ':' && c != ';' && c != '<' && c != '=' && c != '>' && c != '?' && c
            != '@' && c != '[' && c != '\\' && c != ']' && c != '{' && c != '}' && c != '"',
        ('a' <= c <= 'z' || 'A' <= c <= 'Z' || '0' <= c <= '9' || c == '-' || c == '_') ==> is_token(
            c,
        ),
        is_header_name(name) ==> forall|i: int| 0 <= i < name.len() ==> is_token(#[trigger] name[i]),
        0 < name.len() <= 65_535 && (forall|i: int|
            0 <= i < name.len() ==> is_token(#[trigger] name[i])) ==> is_header_name(name),
{
    if is_header_value(value) {
        assert forall|i: int| 0 <= i < value.len() implies is_printed(
            (#[trigger] value[i]) as u32,
        ) by {
            lemma_code(value[i]);
        }
    }
    if forall|i: int| 0 <= i < value.len() ==> is_printed((#[trigger] value[i]) as u32) {
        assert forall|i: int| 0 <= i < value.len() implies (' ' <= #[trigger] value[i] && value[i]
            != '\u{7f}') || value[i] == '\t' by {
            lemma_code(value[i]);
            assert(is_printed(value[i] as u32));
        }
    }
}

proof fn lemma_code(c: char)
    ensures
        is_printed(c as u32) <==> (' ' <= c && c != '\u{7f}') || c == '\t',
{
}

/// Whether a code stands for something that is printed, or for the tabulator.
pub open spec fn is_printed(code: u32) -> bool {
    code == 9 || code >= 32 && code != 127
}

} // verus!
