//! Declaring servers.
//!
//! Each config root may hold an `mcp.json`, and a project's server replaces a user's
//! of the same name. Values are `${VAR}` references rather than secrets, so that the
//! file can be committed.

use vstd::prelude::*;

use crate::mcp::{McpError, McpErrorModel};
use crate::text::{
    copy_texts, find_text_of, lemma_find, lemma_find_text, split_once, split_once_of,
    split_once_text, split_once_text_of, text_of,
};
use crate::text_map::{pairs_of, texts_of, TextMap};

verus! {

/// File name looked for under each config root.
pub const CONFIG_FILE: &'static str = "mcp.json";

/// A server as a file declares it.
#[derive(Debug)]
pub struct ServerConfig {
    /// Executable to spawn, for a server that is a process.
    pub command: Option<String>,
    pub args: Vec<String>,
    /// Added to the inherited environment.
    pub env: TextMap<String>,
    /// Endpoint of a server that is reached over HTTP.
    pub url: Option<String>,
    /// Request headers, which carry such a server's credentials.
    pub headers: TextMap<String>,
    /// Declared, and to be started.
    pub enabled: bool,
}

/// What a [`ServerConfig`] is.
pub struct ConfigModel {
    pub command: Option<Seq<char>>,
    pub args: Seq<Seq<char>>,
    pub env: Seq<(Seq<char>, Seq<char>)>,
    pub url: Option<Seq<char>>,
    pub headers: Seq<(Seq<char>, Seq<char>)>,
    pub enabled: bool,
}

impl DeepView for ServerConfig {
    type V = ConfigModel;

    open spec fn deep_view(&self) -> ConfigModel {
        ConfigModel {
            command: text_of(self.command),
            args: self.args.deep_view(),
            env: pairs_of(self.env),
            url: text_of(self.url),
            headers: pairs_of(self.headers),
            enabled: self.enabled,
        }
    }
}

/// A value with its `${VAR}` references replaced, or the first variable that is not
/// set. A reference that is never closed stays as it is.
pub open spec fn expanded(value: Seq<char>, env: Map<Seq<char>, Seq<char>>) -> Result<
    Seq<char>,
    Seq<char>,
>
    decreases value.len(),
    via expanded_decreases
{
    match split_once_text_of(value, "${"@) {
        None => Ok(value),
        Some((before, after)) => match split_once_of(after, '}') {
            None => Ok(value),
            Some((name, rest)) => if !env.dom().contains(name) {
                Err(name)
            } else {
                match expanded(rest, env) {
                    Ok(tail) => Ok(before + env[name] + tail),
                    Err(missing) => Err(missing),
                }
            },
        },
    }
}

proof fn lemma_reference(value: Seq<char>)
    ensures
        match split_once_text_of(value, "${"@) {
            Some((before, after)) => {
                &&& after.len() <= value.len()
                &&& match split_once_of(after, '}') {
                    Some((name, rest)) => rest.len() < value.len(),
                    None => true,
                }
            },
            None => true,
        },
{
    lemma_find_text(value, "${"@);
    if let Some((before, after)) = split_once_text_of(value, "${"@) {
        lemma_find(after, '}');
    }
}

#[via_fn]
proof fn expanded_decreases(value: Seq<char>, env: Map<Seq<char>, Seq<char>>) {
    lemma_reference(value);
}

/// What is said of a variable that is not set.
pub open spec fn unset(key: Seq<char>, name: Seq<char>) -> Seq<char> {
    key + " references ${"@ + name + "}, which is not set"@
}

/// A declaration's values with their references replaced, in order, or the first
/// failure.
pub open spec fn expanded_pairs(
    pairs: Seq<(Seq<char>, Seq<char>)>,
    env: Map<Seq<char>, Seq<char>>,
) -> Result<Seq<(Seq<char>, Seq<char>)>, Seq<char>>
    decreases pairs.len(),
{
    if pairs.len() == 0 {
        Ok(Seq::empty())
    } else {
        match expanded_pairs(pairs.drop_last(), env) {
            Err(reason) => Err(reason),
            Ok(before) => match expanded(pairs.last().1, env) {
                Err(name) => Err(unset(pairs.last().0, name)),
                Ok(value) => Ok(before.push((pairs.last().0, value))),
            },
        }
    }
}

/// A declaration with all its references replaced, or why it cannot be used.
pub open spec fn resolved_config(config: ConfigModel, env: Map<Seq<char>, Seq<char>>) -> Result<
    ConfigModel,
    Seq<char>,
> {
    match expanded_pairs(config.env, env) {
        Err(reason) => Err(reason),
        Ok(new_env) => match expanded_pairs(config.headers, env) {
            Err(reason) => Err(reason),
            Ok(headers) => match config.url {
                None => Ok(ConfigModel { env: new_env, headers, ..config }),
                Some(url) => match expanded(url, env) {
                    Err(name) => Err(unset("url"@, name)),
                    Ok(url) => Ok(
                        ConfigModel { env: new_env, headers, url: Some(url), ..config },
                    ),
                },
            },
        },
    }
}

/// Why a declaration names no way to reach its server, if it does not name exactly
/// one: of two readings neither is chosen.
pub open spec fn invalid(config: ConfigModel) -> Option<Seq<char>> {
    if config.command is Some && config.url is Some {
        Some("declares both command and url; they are exclusive"@)
    } else if config.command is None && config.url is None {
        Some("declares neither command nor url"@)
    } else {
        None
    }
}

fn unset_error(server: &str, key: &str, name: &str) -> (r: McpError)
    ensures
        r.deep_view() == (McpErrorModel::Config { server: server@, reason: unset(key@, name@) }),
{
    let mut reason = key.to_owned();
    reason.push_str(" references ${");
    reason.push_str(name);
    reason.push_str("}, which is not set");
    McpError::Config { server: server.to_owned(), reason }
}

/// Replaces the `${VAR}` references in a value, or names the first variable that is
/// not set.
pub fn expand(value: &str, env: &TextMap<String>) -> (r: Result<String, String>)
    ensures
        match r {
            Ok(text) => expanded(value@, texts_of(*env)) == Ok::<_, Seq<char>>(text@),
            Err(name) => expanded(value@, texts_of(*env)) == Err::<Seq<char>, _>(name@),
        },
{
    let ghost all = texts_of(*env);
    let mut out = String::new();
    let mut rest = value.to_owned();
    let ghost whole = expanded(value@, all);
    assert(match whole {
        Ok(tail) => whole == Ok::<_, Seq<char>>(out@ + tail),
        Err(missing) => true,
    }) by {
        if let Ok(tail) = whole {
            assert(out@ + tail =~= tail);
        }
    }
    loop
        invariant
            all == texts_of(*env),
            whole == expanded(value@, all),
            match expanded(rest@, all) {
                Ok(tail) => whole == Ok::<_, Seq<char>>(out@ + tail),
                Err(missing) => whole == Err::<Seq<char>, _>(missing),
            },
        decreases rest@.len(),
    {
        proof {
            lemma_reference(rest@);
        }
        let (before, after): (String, String) = match split_once_text(&rest, "${") {
            None => {
                out.push_str(&rest);
                return Ok(out);
            },
            Some(parts) => parts,
        };
        let (name, tail): (String, String) = match split_once(&after, '}') {
            None => {
                out.push_str(&rest);
                return Ok(out);
            },
            Some(parts) => parts,
        };
        match env.get(&name) {
            None => {
                return Err(name);
            },
            Some(resolved) => {
                let ghost old_out = out@;
                out.push_str(&before);
                out.push_str(resolved);
                proof {
                    if let Ok(end) = expanded(tail@, all) {
                        assert(old_out + (before@ + resolved@ + end) =~= out@ + end);
                    }
                }
            },
        }
        rest = tail;
    }
}

/// Replaces the references in the values of a map.
fn expand_map(map: TextMap<String>, server: &str, env: &TextMap<String>) -> (r: Result<
    TextMap<String>,
    McpError,
>)
    ensures
        match r {
            Ok(after) => expanded_pairs(pairs_of(map), texts_of(*env)) == Ok::<_, Seq<char>>(
                pairs_of(after),
            ),
            Err(error) => match expanded_pairs(pairs_of(map), texts_of(*env)) {
                Ok(_) => false,
                Err(reason) => error.deep_view() == (McpErrorModel::Config {
                    server: server@,
                    reason,
                }),
            },
        },
{
    let ghost pairs = pairs_of(map);
    let ghost all = texts_of(*env);
    let n: usize = map.len();
    let mut out = map;
    let mut i: usize = 0;
    proof {
        assert(pairs.take(0) =~= Seq::<(Seq<char>, Seq<char>)>::empty());
        assert(pairs_of(out).take(0) =~= Seq::<(Seq<char>, Seq<char>)>::empty());
        lemma_first_failure(pairs, all, 0);
    }
    // The keys stay; walking them needs them apart from each other.
    let keys = out.keys();
    while i < n
        invariant
            i <= n == pairs.len(),
            n == out.keys_of().len(),
            out.keys_of() == map.keys_of(),
            keys.deep_view() == map.keys_of(),
            crate::text_map::ascending(map.keys_of()),
            pairs == pairs_of(map),
            all == texts_of(*env),
            forall|k: int| i <= k < n ==> #[trigger] pairs_of(out)[k] == pairs[k],
            expanded_pairs(pairs.take(i as int), all) == Ok::<_, Seq<char>>(
                pairs_of(out).take(i as int),
            ),
        decreases n - i,
    {
        let ghost before = pairs_of(out);
        let ghost taken = pairs_of(out).take(i as int);
        assert(pairs.take(i + 1).drop_last() =~= pairs.take(i as int));
        assert(pairs.take(i + 1).last() == pairs[i as int]);
        assert(before[i as int] == pairs[i as int]);
        let (key, value) = out.at(i);
        assert(pairs[i as int] == (key@, value@));
        match expand(value, env) {
            Err(name) => {
                proof {
                    lemma_first_failure(pairs, all, i + 1);
                }
                return Err(unset_error(server, key, &name));
            },
            Ok(text) => {
                let ghost new = text@;
                out.replace_at(i, text);
                proof {
                    let after = pairs_of(out);
                    assert forall|k: int| 0 <= k < n && k != i implies #[trigger] after[k]
                        == before[k] by {
                        assert(map.keys_of()[k] != map.keys_of()[i as int]) by {
                            if k < i {
                                assert(map.keys_of()[k] != map.keys_of()[i as int]);
                            } else {
                                assert(map.keys_of()[i as int] != map.keys_of()[k]);
                            }
                        }
                    }
                    assert(after.take(i + 1) =~= taken.push((map.keys_of()[i as int], new)));
                }
            },
        }
        i += 1;
    }
    assert(pairs.take(i as int) =~= pairs);
    assert(pairs_of(out).take(i as int) =~= pairs_of(out));
    Ok(out)
}

/// A failure among the first pairs is the failure of all.
proof fn lemma_first_failure(
    pairs: Seq<(Seq<char>, Seq<char>)>,
    env: Map<Seq<char>, Seq<char>>,
    n: int,
)
    requires
        0 <= n <= pairs.len(),
    ensures
        match expanded_pairs(pairs.take(n), env) {
            Err(reason) => expanded_pairs(pairs, env) == Err::<
                Seq<(Seq<char>, Seq<char>)>,
                _,
            >(reason),
            Ok(_) => true,
        },
    decreases pairs.len() - n,
{
    if n < pairs.len() {
        assert(pairs.take(n + 1).drop_last() =~= pairs.take(n));
        lemma_first_failure(pairs, env, n + 1);
    } else {
        assert(pairs.take(n) =~= pairs);
    }
}

impl ServerConfig {
    /// Replaces the `${VAR}` references by what the environment holds. A variable
    /// that is not set is an error: a server with an empty token would fail inside
    /// itself, and look broken.
    pub fn resolve_env_with(self, server: &str, env: &TextMap<String>) -> (r: Result<
        Self,
        McpError,
    >)
        ensures
            match r {
                Ok(config) => resolved_config(self.deep_view(), texts_of(*env)) == Ok::<
                    _,
                    Seq<char>,
                >(config.deep_view()),
                Err(error) => match resolved_config(self.deep_view(), texts_of(*env)) {
                    Ok(_) => false,
                    Err(reason) => error.deep_view() == (McpErrorModel::Config {
                        server: server@,
                        reason,
                    }),
                },
            },
    {
        let ServerConfig { command, args, env: values, url, headers, enabled } = self;
        let values = match expand_map(values, server, env) {
            Ok(values) => values,
            Err(error) => {
                return Err(error);
            },
        };
        let headers = match expand_map(headers, server, env) {
            Ok(headers) => headers,
            Err(error) => {
                return Err(error);
            },
        };
        let url = match url {
            None => None,
            Some(url) => match expand(&url, env) {
                Ok(url) => Some(url),
                Err(name) => {
                    return Err(unset_error(server, "url", &name));
                },
            },
        };
        Ok(ServerConfig { command, args, env: values, url, headers, enabled })
    }

    /// Refuses a declaration that names neither way to reach its server, or both.
    pub fn validated(self, server: &str) -> (r: Result<Self, McpError>)
        ensures
            match r {
                Ok(config) => invalid(self.deep_view()) is None && config == self,
                Err(error) => match invalid(self.deep_view()) {
                    None => false,
                    Some(reason) => error.deep_view() == (McpErrorModel::Config {
                        server: server@,
                        reason,
                    }),
                },
            },
    {
        if self.command.is_some() && self.url.is_some() {
            return Err(
                McpError::Config {
                    server: server.to_owned(),
                    reason: "declares both command and url; they are exclusive".to_owned(),
                },
            );
        }
        if self.command.is_none() && self.url.is_none() {
            return Err(
                McpError::Config {
                    server: server.to_owned(),
                    reason: "declares neither command nor url".to_owned(),
                },
            );
        }
        Ok(self)
    }

    /// How the server is reached. The choice stands here, so that no caller can
    /// forget one of the two.
    pub fn connect(&self, server: &str) -> (r: Result<Connection, McpError>)
        ensures
            match r {
                Ok(Connection::Http { url }) => text_of(self.url) == Some(url@),
                Ok(Connection::Process { program, args }) => {
                    &&& self.url is None
                    &&& text_of(self.command) == Some(program@)
                    &&& args.deep_view() == self.args.deep_view()
                },
                Err(error) => {
                    &&& self.url is None
                    &&& self.command is None
                    &&& error.deep_view() == (McpErrorModel::Config {
                        server: server@,
                        reason: "declares neither command nor url"@,
                    })
                },
            },
    {
        if let Some(url) = &self.url {
            return Ok(Connection::Http { url: url.clone() });
        }
        match &self.command {
            Some(program) => Ok(
                Connection::Process { program: program.clone(), args: copy_texts(&self.args) },
            ),
            None => Err(
                McpError::Config {
                    server: server.to_owned(),
                    reason: "declares neither command nor url".to_owned(),
                },
            ),
        }
    }
}

/// How a server is reached.
#[derive(Debug, PartialEq, Eq)]
pub enum Connection {
    /// Over streamable HTTP.
    Http { url: String },
    /// As a child process.
    Process { program: String, args: Vec<String> },
}

/// What became of one root's file.
#[derive(Debug)]
pub enum ConfigFile {
    /// It could not be read.
    Unreadable { path: String, error: String },
    /// It is not of the form it should have.
    Malformed { path: String, error: String },
    /// The servers it declares.
    Read { servers: TextMap<ServerConfig> },
}

/// What one declaration comes to.
pub open spec fn accepted(name: Seq<char>, config: ConfigModel, env: Map<Seq<char>, Seq<char>>) -> Result<
    ConfigModel,
    McpErrorModel,
> {
    match resolved_config(config, env) {
        Err(reason) => Err(McpErrorModel::Config { server: name, reason }),
        Ok(resolved) => match invalid(resolved) {
            Some(reason) => Err(McpErrorModel::Config { server: name, reason }),
            None => Ok(resolved),
        },
    }
}

/// Servers by name, and what went wrong.
pub struct Servers {
    pub servers: Map<Seq<char>, ConfigModel>,
    pub errors: Seq<McpErrorModel>,
}

/// The first `n` declarations of a file on top of what came before it: each replaces
/// one of its name, and one that cannot be used is reported.
pub open spec fn declared(
    found: Servers,
    names: Seq<Seq<char>>,
    configs: Map<Seq<char>, ServerConfig>,
    env: Map<Seq<char>, Seq<char>>,
    n: int,
) -> Servers
    decreases n,
{
    if n <= 0 {
        found
    } else {
        let before = declared(found, names, configs, env, n - 1);
        let name = names[n - 1];
        match accepted(name, configs[name].deep_view(), env) {
            Ok(config) => Servers { servers: before.servers.insert(name, config), ..before },
            Err(error) => Servers { errors: before.errors.push(error), ..before },
        }
    }
}

/// What files declare, each on top of those before it. A file that cannot be used is
/// reported and passed over.
pub open spec fn discovered(files: Seq<ConfigFile>, env: Map<Seq<char>, Seq<char>>) -> Servers
    decreases files.len(),
{
    if files.len() == 0 {
        Servers { servers: Map::empty(), errors: Seq::empty() }
    } else {
        let before = discovered(files.drop_last(), env);
        match files.last() {
            ConfigFile::Unreadable { path, error } => Servers {
                errors: before.errors.push(
                    McpErrorModel::Config { server: path@, reason: error@ },
                ),
                ..before
            },
            ConfigFile::Malformed { path, error } => Servers {
                errors: before.errors.push(
                    McpErrorModel::Malformed(path@ + ": "@ + error@),
                ),
                ..before
            },
            ConfigFile::Read { servers } => declared(
                before,
                servers.keys_of(),
                servers@,
                env,
                servers.keys_of().len() as int,
            ),
        }
    }
}

/// What a map of servers holds.
pub open spec fn configs_of(servers: Map<Seq<char>, ServerConfig>) -> Map<Seq<char>, ConfigModel> {
    Map::new(|k: Seq<char>| servers.dom().contains(k), |k: Seq<char>| servers[k].deep_view())
}

/// Takes in one file's declarations.
fn declare(
    found: &mut TextMap<ServerConfig>,
    errors: &mut Vec<McpError>,
    servers: TextMap<ServerConfig>,
    env: &TextMap<String>,
)
    ensures
        (Servers {
            servers: configs_of(final(found)@),
            errors: final(errors).deep_view(),
        }) == declared(
            Servers { servers: configs_of(old(found)@), errors: old(errors).deep_view() },
            servers.keys_of(),
            servers@,
            texts_of(*env),
            servers.keys_of().len() as int,
        ),
{
    let ghost start = Servers { servers: configs_of(found@), errors: errors.deep_view() };
    let ghost names = servers.keys_of();
    let ghost configs = servers@;
    let ghost all = texts_of(*env);
    let keys = servers.keys();
    let n: usize = keys.len();
    let mut rest = servers.into_values();
    let mut i: usize = 0;
    while i < n
        invariant
            i <= n == keys@.len() == names.len(),
            keys.deep_view() == names,
            all == texts_of(*env),
            rest@.len() == n - i,
            forall|k: int| 0 <= k < n - i ==> #[trigger] rest@[k] == configs[names[k + i]],
            (Servers { servers: configs_of(found@), errors: errors.deep_view() }) == declared(
                start,
                names,
                configs,
                all,
                i as int,
            ),
        decreases n - i,
    {
        let ghost before_servers = configs_of(found@);
        let ghost before_errors = errors.deep_view();
        let ghost old_rest = rest@;
        let config = rest.remove(0);
        assert(config == configs[names[i as int]]) by {
            assert(old_rest[0] == configs[names[0 + i]]);
        }
        assert forall|k: int| 0 <= k < n - i - 1 implies #[trigger] rest@[k] == configs[names[k + i
            + 1]] by {
            assert(rest@[k] == old_rest[k + 1]);
        }
        assert(names[i as int] == keys@[i as int]@);
        let outcome = match config.resolve_env_with(&keys[i], env) {
            Ok(resolved) => resolved.validated(&keys[i]),
            Err(error) => Err(error),
        };
        match outcome {
            Ok(resolved) => {
                let _ = found.insert(keys[i].clone(), resolved);
                assert(configs_of(found@) =~= before_servers.insert(
                    names[i as int],
                    resolved.deep_view(),
                ));
            },
            Err(error) => {
                errors.push(error);
                assert(errors.deep_view() =~= before_errors.push(error.deep_view()));
            },
        }
        i += 1;
    }
}

/// What the config roots' files declare, least specific first, with the references
/// replaced by what the environment holds.
pub fn discover(files: Vec<ConfigFile>, env: &TextMap<String>) -> (r: (
    TextMap<ServerConfig>,
    Vec<McpError>,
))
    ensures
        (Servers { servers: configs_of(r.0@), errors: r.1.deep_view() }) == discovered(
            files@,
            texts_of(*env),
        ),
{
    let ghost all = files@;
    let mut rest = files;
    let mut found: TextMap<ServerConfig> = TextMap::new();
    let mut errors: Vec<McpError> = Vec::new();
    let ghost mut done: int = 0;
    assert(all.skip(0) =~= all);
    assert(all.take(0) =~= Seq::<ConfigFile>::empty());
    assert(configs_of(found@) =~= Map::<Seq<char>, ConfigModel>::empty());
    assert(errors.deep_view() =~= Seq::<McpErrorModel>::empty());
    while rest.len() > 0
        invariant
            0 <= done <= all.len(),
            rest@ == all.skip(done),
            (Servers { servers: configs_of(found@), errors: errors.deep_view() }) == discovered(
                all.take(done),
                texts_of(*env),
            ),
        decreases rest@.len(),
    {
        let ghost before_errors = errors.deep_view();
        let file = rest.remove(0);
        assert(all.skip(done).drop_first() =~= all.skip(done + 1));
        assert(all.take(done + 1).drop_last() =~= all.take(done));
        assert(all.take(done + 1).last() == file);
        match file {
            ConfigFile::Unreadable { path, error } => {
                let error = McpError::Config { server: path, reason: error };
                errors.push(error);
                assert(errors.deep_view() =~= before_errors.push(error.deep_view()));
            },
            ConfigFile::Malformed { path, error } => {
                let mut text = path;
                text.push_str(": ");
                text.push_str(&error);
                let error = McpError::Malformed(text);
                errors.push(error);
                assert(errors.deep_view() =~= before_errors.push(error.deep_view()));
            },
            ConfigFile::Read { servers } => {
                declare(&mut found, &mut errors, servers, env);
            },
        }
        proof {
            done = done + 1;
        }
    }
    assert(all.take(done) =~= all);
    (found, errors)
}

/// A declaration fails over its references only where a variable is not set, and the
/// failure names it.
pub proof fn law_only_unset_variables_fail(value: Seq<char>, env: Map<Seq<char>, Seq<char>>)
    ensures
        match expanded(value, env) {
            Err(name) => !env.dom().contains(name),
            Ok(_) => true,
        },
    decreases value.len(),
{
    lemma_reference(value);
    if let Some((before, after)) = split_once_text_of(value, "${"@) {
        if let Some((name, rest)) = split_once_of(after, '}') {
            if env.dom().contains(name) {
                law_only_unset_variables_fail(rest, env);
            }
        }
    }
}

/// A value without references is what it says, whatever the environment.
pub proof fn law_plain_values_stand(value: Seq<char>, env: Map<Seq<char>, Seq<char>>)
    requires
        find_text_of(value, "${"@) is None,
    ensures
        expanded(value, env) == Ok::<_, Seq<char>>(value),
{
}

proof fn lemma_declared_valid(
    found: Servers,
    names: Seq<Seq<char>>,
    configs: Map<Seq<char>, ServerConfig>,
    env: Map<Seq<char>, Seq<char>>,
    n: int,
)
    requires
        forall|k: Seq<char>| #[trigger]
            found.servers.dom().contains(k) ==> invalid(found.servers[k]) is None,
    ensures
        forall|k: Seq<char>| #[trigger]
            declared(found, names, configs, env, n).servers.dom().contains(k) ==> invalid(
                declared(found, names, configs, env, n).servers[k],
            ) is None,
    decreases n,
{
    if n > 0 {
        lemma_declared_valid(found, names, configs, env, n - 1);
    }
}

/// Every server that is kept can be reached in exactly one way.
pub proof fn law_every_server_is_valid(
    files: Seq<ConfigFile>,
    env: Map<Seq<char>, Seq<char>>,
    name: Seq<char>,
)
    requires
        discovered(files, env).servers.dom().contains(name),
    ensures
        invalid(discovered(files, env).servers[name]) is None,
{
    lemma_discovered_valid(files, env);
}

proof fn lemma_discovered_valid(files: Seq<ConfigFile>, env: Map<Seq<char>, Seq<char>>)
    ensures
        forall|k: Seq<char>| #[trigger]
            discovered(files, env).servers.dom().contains(k) ==> invalid(
                discovered(files, env).servers[k],
            ) is None,
    decreases files.len(),
{
    if files.len() > 0 {
        lemma_discovered_valid(files.drop_last(), env);
        if let ConfigFile::Read { servers } = files.last() {
            lemma_declared_valid(
                discovered(files.drop_last(), env),
                servers.keys_of(),
                servers@,
                env,
                servers.keys_of().len() as int,
            );
        }
    }
}

/// The last root wins: a server that the last file declares, and that can be used,
/// is what that file says, whatever the files before it say.
pub proof fn law_the_last_root_wins(
    files: Seq<ConfigFile>,
    env: Map<Seq<char>, Seq<char>>,
    servers: TextMap<ServerConfig>,
    at: int,
)
    requires
        files.len() > 0,
        files.last() == (ConfigFile::Read { servers }),
        crate::text_map::ascending(servers.keys_of()),
        0 <= at < servers.keys_of().len(),
        accepted(
            servers.keys_of()[at],
            servers@[servers.keys_of()[at]].deep_view(),
            env,
        ) is Ok,
    ensures
        ({
            let name = servers.keys_of()[at];
            &&& discovered(files, env).servers.dom().contains(name)
            &&& discovered(files, env).servers[name] == accepted(
                name,
                servers@[name].deep_view(),
                env,
            )->Ok_0
        }),
{
    lemma_declared_last(
        discovered(files.drop_last(), env),
        servers.keys_of(),
        servers@,
        env,
        servers.keys_of().len() as int,
        at,
    );
}

proof fn lemma_declared_last(
    found: Servers,
    names: Seq<Seq<char>>,
    configs: Map<Seq<char>, ServerConfig>,
    env: Map<Seq<char>, Seq<char>>,
    n: int,
    at: int,
)
    requires
        crate::text_map::ascending(names),
        0 <= at < n <= names.len(),
        accepted(names[at], configs[names[at]].deep_view(), env) is Ok,
    ensures
        ({
            let after = declared(found, names, configs, env, n);
            &&& after.servers.dom().contains(names[at])
            &&& after.servers[names[at]] == accepted(
                names[at],
                configs[names[at]].deep_view(),
                env,
            )->Ok_0
        }),
    decreases n,
{
    if at < n - 1 {
        lemma_declared_last(found, names, configs, env, n - 1, at);
        assert(names[at] != names[n - 1]);
    }
}

} // verus!
