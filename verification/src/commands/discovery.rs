//! What a command file means: its name, its head and its body.

use vstd::prelude::*;

use crate::commands::command::{Command, CommandFrontmatter};
use crate::commands::CommandError;
use crate::paths;
use crate::paths::{components_of, extension_is, stem_of, within};
use crate::text::{
    begins, join, join_of, same, split_once_text, split_once_text_of, strip_prefix, trim_start,
    trim_start_char, trim_start_char_of, trim_start_of,
};
use crate::config::layer_laws::dashes_of;
use crate::text_laws::{
    law_a_name_is_stem_and_extension, law_every_one_of_a_character_is_dropped,
    lemma_find_text_unique,
};
use crate::text_map::TextMap;

verus! {

/// Whether a file holds a command: its name ends in `.md`.
pub fn is_command_file(path: &str) -> (r: bool)
    ensures
        r == extension_is(path@, "md"@),
{
    paths::has_extension_named(path, "md")
}

/// A file's text, apart: the YAML of its frontmatter, if it has one, and its body.
#[derive(Debug, PartialEq, Eq)]
pub struct SplitFile {
    pub yaml: Option<String>,
    pub body: String,
}

/// How a file's text comes apart: between a leading `---` and the next line that
/// begins with `---` stands the YAML. Without both, all of it is body.
pub open spec fn frontmatter_of(source: Seq<char>) -> (Option<Seq<char>>, Seq<char>) {
    if begins(source, "---"@) {
        match split_once_text_of(source.skip(3), "\n---"@) {
            Some((yaml, body)) => (Some(yaml), trim_start_of(trim_start_char_of(body, '-'))),
            None => (None, source),
        }
    } else {
        (None, source)
    }
}

/// Takes a file's text apart. Frontmatter is optional: a command can be a bare
/// prompt file.
pub fn split_frontmatter(source: &str) -> (r: SplitFile)
    ensures
        (crate::text::text_of(r.yaml), r.body@) == frontmatter_of(source@),
{
    proof {
        reveal_strlit("---");
    }
    match strip_prefix(source, "---") {
        Some(rest) => match split_once_text(&rest, "\n---") {
            Some((yaml, body)) => SplitFile {
                yaml: Some(yaml),
                body: trim_start(&trim_start_char(&body, '-')),
            },
            None => SplitFile { yaml: None, body: source.to_owned() },
        },
        None => SplitFile { yaml: None, body: source.to_owned() },
    }
}

/// The components of a path below a root, or all of them if it is not below it.
pub open spec fn relative_components(path: Seq<char>, root: Seq<char>) -> Seq<Seq<char>> {
    if within(root, path) {
        components_of(path).skip(components_of(root).len() as int)
    } else {
        components_of(path)
    }
}

/// Components with the extension of the last taken away. A last name that then
/// only says "here" goes, unless it is all there is.
pub open spec fn without_extension(parts: Seq<Seq<char>>) -> Seq<Seq<char>> {
    if parts.len() == 0 {
        parts
    } else if stem_of(parts.last()) == seq!['.'] && parts.len() > 1 {
        parts.drop_last()
    } else {
        parts.drop_last().push(stem_of(parts.last()))
    }
}

/// The name of the command in a file: its path below the root, without extension
/// and with `:` between the directories.
pub open spec fn command_name_of(path: Seq<char>, root: Seq<char>) -> Seq<char> {
    join_of(without_extension(relative_components(path, root)), ":"@)
}

/// The name of the command in a file.
pub fn command_name(path: &str, root: &str) -> (r: String)
    ensures
        r@ == command_name_of(path@, root@),
{
    let all = paths::components(path);
    let skipped: usize = if paths::starts_with(path, root) {
        paths::components(root).len()
    } else {
        0
    };
    let ghost relative = relative_components(path@, root@);
    assert(all.deep_view().skip(0) =~= all.deep_view());
    assert(relative == all.deep_view().skip(skipped as int));
    let n: usize = all.len();
    let mut parts: Vec<String> = Vec::new();
    let mut i: usize = skipped;
    while i < n
        invariant
            skipped <= n == all@.len(),
            i <= n,
            skipped <= i,
            parts.deep_view() == all.deep_view().subrange(skipped as int, i as int),
        decreases n - i,
    {
        let ghost before = parts.deep_view();
        parts.push(all[i].clone());
        assert(parts.deep_view() =~= before.push(all.deep_view()[i as int]));
        assert(parts.deep_view() =~= all.deep_view().subrange(skipped as int, i + 1));
        i += 1;
    }
    assert(parts.deep_view() =~= relative);
    match parts.pop() {
        Some(last) => {
            assert(last@ == relative.last());
            assert(parts.deep_view() =~= relative.drop_last());
            let stem = paths::split_extension(&last).0;
            proof {
                reveal_strlit(".");
                assert("."@ =~= seq!['.']);
            }
            if !(same(&stem, ".") && parts.len() > 0) {
                let ghost before = parts.deep_view();
                parts.push(stem);
                assert(parts.deep_view() =~= before.push(stem@));
            }
        },
        None => {
            assert(relative =~= Seq::<Seq<char>>::empty());
        },
    }
    join(&parts, ":")
}

/// What was found at one path.
#[derive(Debug, PartialEq, Eq)]
pub enum Found {
    /// A command file that was read.
    Command(Command),
    /// A file or directory that could not be read.
    Unreadable { path: String, source: String },
    /// A command file whose frontmatter is not valid.
    Malformed { path: String, source: String },
}

/// Builds a command from its file: where it is, its head as read, and its body.
pub fn command_from(
    path: &str,
    root: &str,
    is_project_local: bool,
    frontmatter: CommandFrontmatter,
    body: String,
) -> (r: Command)
    ensures
        r.name@ == command_name_of(path@, root@),
        r.frontmatter == frontmatter,
        r.template == body,
        r.path@ == path@,
        r.is_project_local == is_project_local,
{
    Command {
        name: command_name(path, root),
        frontmatter,
        template: body,
        path: path.to_owned(),
        is_project_local,
    }
}

/// The commands that were found, by name: a later one replaces an earlier one.
pub open spec fn commands_of(found: Seq<Found>) -> Map<Seq<char>, Command>
    decreases found.len(),
{
    if found.len() == 0 {
        Map::empty()
    } else {
        let rest = commands_of(found.drop_last());
        match found.last() {
            Found::Command(command) => rest.insert(command.name@, command),
            _ => rest,
        }
    }
}

/// What is reported: every file that could not be read, and every malformed one.
pub open spec fn errors_of(found: Seq<Found>) -> Seq<CommandError>
    decreases found.len(),
{
    if found.len() == 0 {
        Seq::empty()
    } else {
        let rest = errors_of(found.drop_last());
        match found.last() {
            Found::Command(_) => rest,
            Found::Unreadable { path, source } => rest.push(CommandError::Io { path, source }),
            Found::Malformed { path, source } => rest.push(
                CommandError::InvalidFrontmatter { path, source },
            ),
        }
    }
}

/// Collects what was found. What comes later overrides what came earlier, so the
/// user's directories go first and the project's last; a malformed file is skipped
/// and reported.
pub fn discover(found: Vec<Found>) -> (r: (TextMap<Command>, Vec<CommandError>))
    ensures
        r.0@ == commands_of(found@),
        r.1@ == errors_of(found@),
        forall|name: Seq<char>| #[trigger]
            r.0@.dom().contains(name) ==> r.0@[name].name@ == name,
{
    let ghost all = found@;
    let mut commands: TextMap<Command> = TextMap::new();
    let mut errors: Vec<CommandError> = Vec::new();
    let mut rest = found;
    let ghost mut done: int = 0;
    assert(all.take(0) =~= Seq::<Found>::empty());
    assert(all.skip(0) =~= all);
    while rest.len() > 0
        invariant
            0 <= done <= all.len(),
            rest@ == all.skip(done),
            commands@ == commands_of(all.take(done)),
            forall|name: Seq<char>| #[trigger]
                commands@.dom().contains(name) ==> commands@[name].name@ == name,
            errors@ == errors_of(all.take(done)),
        decreases rest@.len(),
    {
        let one = rest.remove(0);
        assert(rest@ =~= all.skip(done + 1));
        assert(one == all[done]);
        assert(all.take(done + 1).drop_last() =~= all.take(done));
        assert(all.take(done + 1).last() == one);
        match one {
            Found::Command(command) => {
                let name = command.name.clone();
                let _ = commands.insert(name, command);
            },
            Found::Unreadable { path, source } => {
                errors.push(CommandError::Io { path, source });
            },
            Found::Malformed { path, source } => {
                errors.push(CommandError::InvalidFrontmatter { path, source });
            },
        }
        proof {
            done = done + 1;
        }
    }
    assert(all.take(done) =~= all);
    (commands, errors)
}

/// What was found is read in its order: a command takes the place of an earlier one of its
/// name and of no other, and whatever is no command is reported with its path and the
/// reason, and changes no command.
pub proof fn law_every_file_is_a_command_or_an_error(found: Seq<Found>, one: Found, name: Seq<char>)
    ensures
        match one {
            Found::Command(command) => {
                let all = commands_of(found.push(one));
                &&& all.dom().contains(command.name@)
                &&& all[command.name@] == command
                &&& name != command.name@ ==> all.dom().contains(name) == commands_of(
                    found,
                ).dom().contains(name)
                &&& name != command.name@ && commands_of(found).dom().contains(name) ==> all[name]
                    == commands_of(found)[name]
                &&& errors_of(found.push(one)) == errors_of(found)
            },
            Found::Unreadable { path, source } => {
                &&& commands_of(found.push(one)) == commands_of(found)
                &&& errors_of(found.push(one)) == errors_of(found).push(
                    CommandError::Io { path, source },
                )
            },
            Found::Malformed { path, source } => {
                &&& commands_of(found.push(one)) == commands_of(found)
                &&& errors_of(found.push(one)) == errors_of(found).push(
                    CommandError::InvalidFrontmatter { path, source },
                )
            },
        },
        !commands_of(Seq::empty()).dom().contains(name),
        errors_of(Seq::empty()).len() == 0,
{
    assert(found.push(one).drop_last() =~= found);
}

/// A file's head stands between two lines of dashes, and its body behind them, without
/// the white space before it. A file without them is all body.
pub proof fn law_a_file_has_a_head_and_a_body(
    yaml: Seq<char>,
    dashes: nat,
    body: Seq<char>,
    source: Seq<char>,
)
    requires
        forall|i: int|
            0 <= i < yaml.len() ==> !begins(
                #[trigger] (yaml + "\n---"@ + dashes_of(dashes) + body).skip(i),
                "\n---"@,
            ),
        body.len() == 0 || body[0] != '-',
    ensures
        frontmatter_of("---"@ + (yaml + "\n---"@ + dashes_of(dashes) + body)) == (
            Some(yaml),
            trim_start_of(body),
        ),
        !begins(source, "---"@) ==> frontmatter_of(source) == (None::<Seq<char>>, source),
{
    reveal_strlit("---");
    assert("---"@.len() == 3);
    let many = dashes_of(dashes);
    let rest = yaml + "\n---"@ + many + body;
    let whole = "---"@ + rest;
    assert(whole.take(3) =~= "---"@);
    assert(whole.skip(3) =~= rest);
    assert(rest.skip(yaml.len() as int) =~= "\n---"@ + many + body);
    assert(("\n---"@ + many + body).take("\n---"@.len() as int) =~= "\n---"@);
    lemma_find_text_unique(rest, "\n---"@, yaml.len() as int);
    assert(rest.take(yaml.len() as int) =~= yaml);
    assert(rest.skip(yaml.len() as int + "\n---"@.len()) =~= many + body);
    law_every_one_of_a_character_is_dropped(body, '-', dashes);
}

/// A command is called by the directories below the root and its file's name without the
/// extension, with colons between.
pub proof fn law_a_command_is_called_by_its_place(
    root: Seq<char>,
    path: Seq<char>,
    dirs: Seq<Seq<char>>,
    name: Seq<char>,
)
    requires
        components_of(path) == components_of(root) + dirs.push(name + ".md"@),
        name.len() > 0,
        name != seq!['.'],
    ensures
        command_name_of(path, root) == join_of(dirs.push(name), ":"@),
{
    reveal_strlit(".md");
    assert(".md"@.len() == 3 && ".md"@[0] == '.' && ".md"@[1] == 'm' && ".md"@[2] == 'd');
    let extension = seq!['m', 'd'];
    let file = name + ".md"@;
    assert(file =~= name + seq!['.'] + extension);
    assert(file.len() >= 4);
    law_a_name_is_stem_and_extension(name, extension);
    let parts = relative_components(path, root);
    assert(components_of(root).is_prefix_of(components_of(path)));
    assert(parts =~= dirs.push(file));
    assert(parts.drop_last() =~= dirs);
    assert(parts.last() == file);
}

} // verus!
