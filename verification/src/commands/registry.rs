//! Every `/name` the client offers, in one namespace.
//!
//! Command files come from whatever repository was cloned, so a built-in command
//! cannot be shadowed: it is registered last and wins, and the file is reported.

use vstd::prelude::*;

use crate::commands::command::Command;
use crate::commands::CommandError;
use crate::text_map::{ascending, TextMap};

verus! {

/// A `/name` the client implements in code.
#[derive(Debug, Clone, Copy, PartialEq, Eq)]
pub struct Builtin {
    pub name: &'static str,
    pub description: &'static str,
}

/// What a `/name` resolves to.
#[derive(Debug, PartialEq, Eq)]
pub enum Kind {
    /// The client runs code for it.
    Builtin,
    /// It expands to a prompt.
    Prompt(Command),
}

/// One `/name`.
#[derive(Debug, PartialEq, Eq)]
pub struct Entry {
    /// Invocation name, without the leading slash.
    pub name: String,
    pub description: String,
    /// Usage hint, such as `<pr-number>`.
    pub argument_hint: Option<String>,
    pub kind: Kind,
}

/// What an [`Entry`] is.
pub struct EntryModel {
    pub name: Seq<char>,
    pub description: Seq<char>,
    pub argument_hint: Option<Seq<char>>,
    pub kind: Kind,
}

impl DeepView for Entry {
    type V = EntryModel;

    open spec fn deep_view(&self) -> EntryModel {
        EntryModel {
            name: self.name@,
            description: self.description@,
            argument_hint: crate::text::text_of(self.argument_hint),
            kind: self.kind,
        }
    }
}

/// How an entry reads in a menu: the hint leads, since a command is useless
/// without its arguments.
pub open spec fn detail_of(entry: EntryModel) -> Seq<char> {
    match entry.argument_hint {
        Some(hint) => if entry.description.len() > 0 {
            hint + "  "@ + entry.description
        } else {
            hint
        },
        None => entry.description,
    }
}

impl Entry {
    /// How the entry reads in a completion menu.
    pub fn detail(&self) -> (r: String)
        ensures
            r@ == detail_of(self.deep_view()),
    {
        match &self.argument_hint {
            Some(hint) => {
                let mut r = hint.clone();
                if !self.description.as_str().is_empty() {
                    r.push_str("  ");
                    r.push_str(&self.description);
                }
                r
            },
            None => self.description.clone(),
        }
    }
}

/// The entry of a command file.
pub open spec fn entry_of(command: Command) -> EntryModel {
    EntryModel {
        name: command.name@,
        description: match command.frontmatter.description {
            Some(text) => text@,
            None => "a project command"@,
        },
        argument_hint: crate::text::text_of(command.frontmatter.argument_hint),
        kind: Kind::Prompt(command),
    }
}

/// The entry of a built-in command.
pub open spec fn builtin_entry(builtin: Builtin) -> EntryModel {
    EntryModel {
        name: builtin.name@,
        description: builtin.description@,
        argument_hint: None,
        kind: Kind::Builtin,
    }
}

/// The entries of command files.
pub open spec fn file_entries(commands: Map<Seq<char>, Command>) -> Map<Seq<char>, EntryModel> {
    Map::new(|name: Seq<char>| commands.dom().contains(name), |name: Seq<char>| entry_of(commands[name]))
}

/// The namespace after the first `n` built-ins were registered over the files.
pub open spec fn with_builtins(
    files: Map<Seq<char>, EntryModel>,
    builtins: Seq<Builtin>,
    n: int,
) -> Map<Seq<char>, EntryModel>
    decreases n,
{
    if n <= 0 {
        files
    } else {
        with_builtins(files, builtins, n - 1).insert(
            builtins[n - 1].name@,
            builtin_entry(builtins[n - 1]),
        )
    }
}

/// What is reported while the first `n` built-ins are registered: each file that
/// lost its name to one.
pub open spec fn shadowed(
    files: Map<Seq<char>, EntryModel>,
    builtins: Seq<Builtin>,
    n: int,
) -> Seq<(Seq<char>, Seq<char>)>
    decreases n,
{
    if n <= 0 {
        Seq::empty()
    } else {
        let before = with_builtins(files, builtins, n - 1);
        let earlier = shadowed(files, builtins, n - 1);
        let name = builtins[n - 1].name@;
        if before.dom().contains(name) && before[name].kind is Prompt {
            earlier.push((before[name].kind->Prompt_0.name@, before[name].kind->Prompt_0.path@))
        } else {
            earlier
        }
    }
}

/// Whether an error reports the file with this name and path as shadowing.
pub open spec fn reports(error: CommandError, lost: (Seq<char>, Seq<char>)) -> bool {
    error matches CommandError::ShadowsBuiltin { name, path } && name@ == lost.0 && path@ == lost.1
}

/// The slash-command namespace.
#[derive(Debug)]
pub struct Registry {
    entries: TextMap<Entry>,
}

impl View for Registry {
    type V = Map<Seq<char>, EntryModel>;

    closed spec fn view(&self) -> Map<Seq<char>, EntryModel> {
        models(self.entries@)
    }
}

/// The entries of a map, by what they are.
pub open spec fn models(entries: Map<Seq<char>, Entry>) -> Map<Seq<char>, EntryModel> {
    Map::new(
        |name: Seq<char>| entries.dom().contains(name),
        |name: Seq<char>| entries[name].deep_view(),
    )
}

impl Registry {
    /// The names, in order.
    pub closed spec fn names_of(&self) -> Seq<Seq<char>> {
        self.entries.keys_of()
    }

    /// Registers the commands that were found, then the built-ins over them.
    pub fn load(
        builtins: &[Builtin],
        commands: TextMap<Command>,
        errors: Vec<CommandError>,
    ) -> (r: (Self, Vec<CommandError>))
        requires
            forall|name: Seq<char>| #[trigger]
                commands@.dom().contains(name) ==> commands@[name].name@ == name,
        ensures
            r.0@ == with_builtins(
                file_entries(commands@),
                builtins@,
                builtins@.len() as int,
            ),
            ({
                let lost = shadowed(
                    file_entries(commands@),
                    builtins@,
                    builtins@.len() as int,
                );
                &&& r.1@.len() == errors@.len() + lost.len()
                &&& r.1@.take(errors@.len() as int) == errors@
                &&& forall|j: int|
                    errors@.len() <= j < r.1@.len() ==> reports(
                        #[trigger] r.1@[j],
                        lost[j - errors@.len()],
                    )
            }),
    {
        let ghost files = file_entries(commands@);
        let ghost found = commands@;
        let ghost names = commands.keys_of();
        let mut rest = commands.into_values();
        let ghost values = rest@;
        let mut entries: TextMap<Entry> = TextMap::new();
        let ghost mut done: int = 0;
        assert(values.skip(0) =~= values);
        while rest.len() > 0
            invariant
                0 <= done <= values.len(),
                rest@ == values.skip(done),
                values == Seq::new(names.len(), |i: int| found[names[i]]),
                ascending(names),
                files == file_entries(found),
                forall|k: Seq<char>| names.contains(k) <==> #[trigger] found.dom().contains(k),
                forall|name: Seq<char>| #[trigger]
                    found.dom().contains(name) ==> found[name].name@ == name,
                forall|k: Seq<char>| #[trigger]
                    entries@.dom().contains(k) <==> names.take(done).contains(k),
                forall|k: Seq<char>| #[trigger]
                    entries@.dom().contains(k) ==> entries@[k].deep_view() == files[k],
            decreases rest@.len(),
        {
            let command = rest.remove(0);
            assert(rest@ =~= values.skip(done + 1));
            assert(command == values[done]);
            let ghost name = names[done];
            assert(names.contains(name));
            assert(found.dom().contains(name));
            assert(command.name@ == name);
            let description = match &command.frontmatter.description {
                Some(text) => text.clone(),
                None => "a project command".to_owned(),
            };
            let entry = Entry {
                name: command.name.clone(),
                description,
                argument_hint: command.frontmatter.argument_hint.clone(),
                kind: Kind::Prompt(command),
            };
            assert(entry.deep_view() == entry_of(found[name]));
            let key = entry.name.clone();
            let _ = entries.insert(key, entry);
            proof {
                let taken = names.take(done + 1);
                assert(taken =~= names.take(done).push(name));
                assert forall|k: Seq<char>| #[trigger]
                    entries@.dom().contains(k) <==> taken.contains(k) by {
                    if taken.contains(k) {
                        let i = choose|i: int| 0 <= i < taken.len() && taken[i] == k;
                        if i < done {
                            assert(names.take(done)[i] == k);
                        }
                    }
                    if names.take(done).contains(k) {
                        let i = choose|i: int| 0 <= i < done && names.take(done)[i] == k;
                        assert(taken[i] == k);
                    }
                    assert(taken[done] == name);
                }
                done = done + 1;
            }
        }
        assert(names.take(done) =~= names);
        assert(models(entries@) =~= files);
        let mut out = errors;
        let mut i: usize = 0;
        let ghost start = errors@;
        assert(out@.take(start.len() as int) =~= start);
        while i < builtins.len()
            invariant
                i <= builtins@.len(),
                models(entries@) == with_builtins(files, builtins@, i as int),
                start == errors@,
                out@.len() == start.len() + shadowed(files, builtins@, i as int).len(),
                out@.take(start.len() as int) == start,
                forall|j: int|
                    start.len() <= j < out@.len() ==> reports(
                        #[trigger] out@[j],
                        shadowed(files, builtins@, i as int)[j - start.len()],
                    ),
            decreases builtins@.len() - i,
        {
            let builtin = &builtins[i];
            let entry = Entry {
                name: builtin.name.to_owned(),
                description: builtin.description.to_owned(),
                argument_hint: None,
                kind: Kind::Builtin,
            };
            let ghost before = entries@;
            let ghost lost = shadowed(files, builtins@, i as int);
            assert(entry.deep_view() == builtin_entry(builtins@[i as int]));
            let displaced = entries.insert(builtin.name.to_owned(), entry);
            assert(models(entries@) =~= models(before).insert(
                builtin.name@,
                builtin_entry(builtins@[i as int]),
            ));
            match displaced {
                Some(old_entry) => match old_entry.kind {
                    Kind::Prompt(command) => {
                        let ghost was = out@;
                        out.push(
                            CommandError::ShadowsBuiltin { name: command.name, path: command.path },
                        );
                        assert(out@.take(start.len() as int) =~= was.take(start.len() as int));
                        assert forall|j: int| start.len() <= j < out@.len() implies reports(
                            #[trigger] out@[j],
                            shadowed(files, builtins@, i + 1)[j - start.len()],
                        ) by {
                            if j < was.len() {
                                assert(out@[j] == was[j]);
                            }
                        }
                    },
                    Kind::Builtin => {},
                },
                None => {},
            }
            i += 1;
        }
        (Registry { entries }, out)
    }

    /// The entry of a name.
    pub fn get(&self, name: &str) -> (r: Option<&Entry>)
        ensures
            match r {
                Some(entry) => self@.dom().contains(name@) && entry.deep_view() == self@[name@],
                None => !self@.dom().contains(name@),
            },
    {
        self.entries.get(name)
    }

    /// Whether a name is taken.
    pub fn contains(&self, name: &str) -> (r: bool)
        ensures
            r == self@.dom().contains(name@),
    {
        self.entries.contains(name)
    }

    /// The `i`-th entry in the order of names.
    pub fn at(&self, i: usize) -> (r: &Entry)
        requires
            i < self.names_of().len(),
        ensures
            self@.dom().contains(self.names_of()[i as int]),
            r.deep_view() == self@[self.names_of()[i as int]],
    {
        self.entries.at(i).1
    }

    /// Every name, in order and each once.
    pub fn names(&self) -> (r: Vec<String>)
        ensures
            r.deep_view() == self.names_of(),
            ascending(self.names_of()),
            forall|k: Seq<char>| self.names_of().contains(k) <==> #[trigger] self@.dom().contains(k),
    {
        let r = self.entries.keys();
        assert forall|k: Seq<char>|
            self.names_of().contains(k) <==> #[trigger] self@.dom().contains(k) by {
            assert(self.entries@.dom().contains(k) <==> self@.dom().contains(k));
        }
        r
    }

    /// How many names there are.
    pub fn len(&self) -> (r: usize)
        ensures
            r == self.names_of().len(),
    {
        self.entries.len()
    }

    /// Whether there is no name at all.
    pub fn is_empty(&self) -> (r: bool)
        ensures
            r == (self.names_of().len() == 0),
    {
        self.entries.len() == 0
    }
}

/// A built-in cannot be shadowed: whatever files were found, its name resolves to
/// code.
pub proof fn law_builtins_cannot_be_shadowed(
    files: Map<Seq<char>, EntryModel>,
    builtins: Seq<Builtin>,
    n: int,
    i: int,
)
    requires
        0 <= i < n <= builtins.len(),
    ensures
        with_builtins(files, builtins, n).dom().contains(builtins[i].name@),
        with_builtins(files, builtins, n)[builtins[i].name@].kind is Builtin,
    decreases n,
{
    if i < n - 1 {
        law_builtins_cannot_be_shadowed(files, builtins, n - 1, i);
    }
}

/// A file whose name no built-in takes is registered as it is, and nothing else
/// is.
pub proof fn law_other_files_are_registered(
    files: Map<Seq<char>, EntryModel>,
    builtins: Seq<Builtin>,
    n: int,
    name: Seq<char>,
)
    requires
        0 <= n <= builtins.len(),
        forall|i: int| 0 <= i < n ==> (#[trigger] builtins[i]).name@ != name,
    ensures
        with_builtins(files, builtins, n).dom().contains(name) == files.dom().contains(name),
        files.dom().contains(name) ==> with_builtins(files, builtins, n)[name] == files[name],
    decreases n,
{
    if n > 0 {
        law_other_files_are_registered(files, builtins, n - 1, name);
    }
}

/// A file that tried to take a built-in's name is reported.
pub proof fn law_shadowing_is_reported(
    files: Map<Seq<char>, EntryModel>,
    builtins: Seq<Builtin>,
    n: int,
    i: int,
)
    requires
        0 <= i < n <= builtins.len(),
        files.dom().contains(builtins[i].name@),
        files[builtins[i].name@].kind is Prompt,
    ensures
        shadowed(files, builtins, n).contains(
            (
                files[builtins[i].name@].kind->Prompt_0.name@,
                files[builtins[i].name@].kind->Prompt_0.path@,
            ),
        ),
    decreases n,
{
    let name = builtins[i].name@;
    let wanted = (files[name].kind->Prompt_0.name@, files[name].kind->Prompt_0.path@);
    if exists|k: int| 0 <= k < n - 1 && (#[trigger] builtins[k]).name@ == name {
        let k = choose|k: int| 0 <= k < n - 1 && (#[trigger] builtins[k]).name@ == name;
        law_shadowing_is_reported(files, builtins, n - 1, k);
        let earlier = shadowed(files, builtins, n - 1);
        let at = choose|at: int| 0 <= at < earlier.len() && earlier[at] == wanted;
        assert(shadowed(files, builtins, n)[at] == wanted);
    } else {
        law_other_files_are_registered(files, builtins, n - 1, name);
        let earlier = shadowed(files, builtins, n - 1);
        assert(i == n - 1);
        assert(shadowed(files, builtins, n)[earlier.len() as int] == wanted);
    }
}

/// A built-in command is listed as it describes itself, and takes no arguments that the
/// list would hint at.
pub proof fn law_a_builtin_describes_itself(
    files: Map<Seq<char>, EntryModel>,
    builtins: Seq<Builtin>,
    n: int,
    i: int,
)
    requires
        0 <= i < n <= builtins.len(),
        forall|j: int| i < j < n ==> (#[trigger] builtins[j]).name@ != builtins[i].name@,
    ensures
        with_builtins(files, builtins, n)[builtins[i].name@] == (EntryModel {
            name: builtins[i].name@,
            description: builtins[i].description@,
            argument_hint: None,
            kind: Kind::Builtin,
        }),
    decreases n,
{
    if i < n - 1 {
        assert(builtins[n - 1].name@ != builtins[i].name@);
        law_a_builtin_describes_itself(files, builtins, n - 1, i);
    }
}

/// Only what is shadowed is reported: each report is of a file with a built-in's name.
pub proof fn law_only_shadowing_is_reported(
    files: Map<Seq<char>, EntryModel>,
    builtins: Seq<Builtin>,
    n: int,
    k: int,
)
    requires
        0 <= n <= builtins.len(),
        0 <= k < shadowed(files, builtins, n).len(),
    ensures
        exists|i: int|
            0 <= i < n && files.dom().contains((#[trigger] builtins[i]).name@)
                && files[builtins[i].name@].kind is Prompt && shadowed(files, builtins, n)[k] == (
                files[builtins[i].name@].kind->Prompt_0.name@,
                files[builtins[i].name@].kind->Prompt_0.path@,
            ),
    decreases n,
{
    if n > 0 {
        let name = builtins[n - 1].name@;
        let before = with_builtins(files, builtins, n - 1);
        if k < shadowed(files, builtins, n - 1).len() {
            law_only_shadowing_is_reported(files, builtins, n - 1, k);
        } else if forall|i: int| 0 <= i < n - 1 ==> (#[trigger] builtins[i]).name@ != name {
            law_other_files_are_registered(files, builtins, n - 1, name);
            assert(builtins[n - 1].name@ == name);
        } else {
            let i = choose|i: int| 0 <= i < n - 1 && (#[trigger] builtins[i]).name@ == name;
            law_builtins_cannot_be_shadowed(files, builtins, n - 1, i);
            assert(false);
        }
    }
}

/// A command is listed under its name, with what its file says of it and of its
/// arguments; a file that says nothing of it is still a project command.
pub proof fn law_a_file_describes_its_command(commands: Map<Seq<char>, Command>, name: Seq<char>)
    requires
        commands.dom().contains(name),
    ensures
        ({
            let command = commands[name];
            let entry = file_entries(commands)[name];
            &&& file_entries(commands).dom().contains(name)
            &&& entry.name == command.name@
            &&& entry.kind == Kind::Prompt(command)
            &&& command.frontmatter.description matches Some(text) ==> entry.description == text@
            &&& command.frontmatter.description is None ==> entry.description
                == "a project command"@
            &&& command.frontmatter.argument_hint matches Some(hint) ==> entry.argument_hint == Some(
                hint@,
            )
            &&& command.frontmatter.argument_hint is None ==> entry.argument_hint is None
        }),
{
}

/// What stands beside a name: the hint at its arguments, then what it does, whichever
/// there are.
pub proof fn law_a_detail_says_both(entry: EntryModel)
    ensures
        entry.argument_hint is None ==> detail_of(entry) == entry.description,
        entry.argument_hint matches Some(hint) ==> detail_of(entry) == (if entry.description.len()
            == 0 {
            hint
        } else {
            hint + "  "@ + entry.description
        }),
{
}

} // verus!
