//! Opening a session: what is said at the top, what `/` offers, and the record.

use vstd::prelude::*;

use crate::cli::dispatch::{Effect, EffectModel};
use crate::cli::startup::{resumed_notice, resumed_text, Row, RowModel};
use crate::commands::registry::{detail_of, EntryModel, Registry};
use crate::commands::{error_text, CommandError};
use crate::config::settings::{settings_error_text, SettingsError};
use crate::text::{text_of, trim_start_char, trim_start_char_of};

verus! {

/// What a session found out before its first prompt.
#[derive(Debug)]
pub struct Findings {
    /// The model that could not be connected, and why.
    pub connecting: Option<String>,
    pub settings: Vec<SettingsError>,
    pub providers: Vec<String>,
    pub servers: Vec<String>,
    pub themes: Vec<String>,
    /// The sessions to choose from.
    pub sessions: Vec<Row>,
    /// How many messages were resumed with.
    pub resumed: usize,
    /// Why no model was selected.
    pub selecting: Option<String>,
    pub commands: Vec<CommandError>,
}

/// What [`Findings`] are. The errors come as their messages.
pub struct FindingsModel {
    pub connecting: Option<Seq<char>>,
    pub settings: Seq<Seq<char>>,
    pub providers: Seq<Seq<char>>,
    pub servers: Seq<Seq<char>>,
    pub themes: Seq<Seq<char>>,
    pub sessions: Seq<RowModel>,
    pub resumed: nat,
    pub selecting: Option<Seq<char>>,
    pub commands: Seq<Seq<char>>,
}

impl DeepView for Findings {
    type V = FindingsModel;

    open spec fn deep_view(&self) -> FindingsModel {
        FindingsModel {
            connecting: text_of(self.connecting),
            settings: Seq::new(
                self.settings@.len(),
                |i: int| settings_error_text(self.settings@[i]),
            ),
            providers: self.providers.deep_view(),
            servers: self.servers.deep_view(),
            themes: self.themes.deep_view(),
            sessions: self.sessions.deep_view(),
            resumed: self.resumed as nat,
            selecting: text_of(self.selecting),
            commands: Seq::new(
                self.commands@.len(),
                |i: int| error_text(self.commands@[i]),
            ),
        }
    }
}

/// Errors, reported in order.
pub open spec fn failures(texts: Seq<Seq<char>>) -> Seq<EffectModel> {
    Seq::new(texts.len(), |i: int| EffectModel::Fail(texts[i]))
}

/// An error, if there is one.
pub open spec fn failure(text: Option<Seq<char>>) -> Seq<EffectModel> {
    match text {
        Some(text) => seq![EffectModel::Fail(text)],
        None => Seq::empty(),
    }
}

/// What happens on opening. Errors come first: a picker is drawn over them.
pub open spec fn opening_of(f: FindingsModel) -> Seq<EffectModel> {
    failure(f.connecting) + failures(f.settings) + failures(f.providers) + failures(f.servers)
        + failures(f.themes) + (if f.sessions.len() == 0 {
        Seq::empty()
    } else {
        seq![EffectModel::OfferSessions(f.sessions)]
    }) + (if f.resumed == 0 {
        Seq::empty()
    } else {
        seq![EffectModel::Say(resumed_text(f.resumed))]
    }) + failure(
        match f.selecting {
            Some(error) => Some(error + ". Run `octane models` to see what is configured."@),
            None => None,
        },
    ) + failures(f.commands)
}

fn push(effects: &mut Vec<Effect>, effect: Effect)
    ensures
        final(effects).deep_view() == old(effects).deep_view() + seq![effect.deep_view()],
{
    let ghost before = effects.deep_view();
    effects.push(effect);
    assert(effects.deep_view() =~= before + seq![effect.deep_view()]);
}

fn report(effects: &mut Vec<Effect>, texts: &Vec<String>)
    ensures
        final(effects).deep_view() == old(effects).deep_view() + failures(texts.deep_view()),
{
    let ghost before = effects.deep_view();
    let ghost all = failures(texts.deep_view());
    let mut i: usize = 0;
    assert(effects.deep_view() =~= before + all.take(0));
    while i < texts.len()
        invariant
            i <= texts@.len(),
            all == failures(texts.deep_view()),
            effects.deep_view() == before + all.take(i as int),
        decreases texts@.len() - i,
    {
        assert(texts.deep_view()[i as int] == texts@[i as int]@);
        push(effects, Effect::Fail(texts[i].clone()));
        assert(effects.deep_view() =~= before + all.take(i + 1));
        i += 1;
    }
    assert(all.take(i as int) =~= all);
}

fn settings_messages(errors: &Vec<SettingsError>) -> (r: Vec<String>)
    ensures
        r.deep_view() == Seq::new(errors@.len(), |i: int| settings_error_text(errors@[i])),
{
    let ghost wanted = Seq::new(errors@.len(), |i: int| settings_error_text(errors@[i]));
    let mut r: Vec<String> = Vec::new();
    let mut i: usize = 0;
    assert(r.deep_view() =~= wanted.take(0));
    while i < errors.len()
        invariant
            i <= errors@.len(),
            wanted == Seq::new(errors@.len(), |i: int| settings_error_text(errors@[i])),
            r.deep_view() == wanted.take(i as int),
        decreases errors@.len() - i,
    {
        let ghost before = r.deep_view();
        let text = errors[i].to_string();
        r.push(text);
        assert(r.deep_view() =~= before.push(text@));
        assert(r.deep_view() =~= wanted.take(i + 1));
        i += 1;
    }
    assert(wanted.take(i as int) =~= wanted);
    r
}

fn command_messages(errors: &Vec<CommandError>) -> (r: Vec<String>)
    ensures
        r.deep_view() == Seq::new(errors@.len(), |i: int| error_text(errors@[i])),
{
    let ghost wanted = Seq::new(errors@.len(), |i: int| error_text(errors@[i]));
    let mut r: Vec<String> = Vec::new();
    let mut i: usize = 0;
    assert(r.deep_view() =~= wanted.take(0));
    while i < errors.len()
        invariant
            i <= errors@.len(),
            wanted == Seq::new(errors@.len(), |i: int| error_text(errors@[i])),
            r.deep_view() == wanted.take(i as int),
        decreases errors@.len() - i,
    {
        let ghost before = r.deep_view();
        let text = errors[i].to_string();
        r.push(text);
        assert(r.deep_view() =~= before.push(text@));
        assert(r.deep_view() =~= wanted.take(i + 1));
        i += 1;
    }
    assert(wanted.take(i as int) =~= wanted);
    r
}

fn report_one(effects: &mut Vec<Effect>, text: Option<String>)
    ensures
        final(effects).deep_view() == old(effects).deep_view() + failure(text_of(text)),
{
    let ghost before = effects.deep_view();
    match text {
        Some(text) => push(effects, Effect::Fail(text)),
        None => {
            assert(before + Seq::<EffectModel>::empty() =~= before);
        },
    }
}

/// What happens on opening a session: problems are said once, at the top, rather than
/// surfacing as a confusing failure on the first prompt.
pub fn opening(found: Findings) -> (r: Vec<Effect>)
    ensures
        r.deep_view() == opening_of(found.deep_view()),
{
    let ghost f = found.deep_view();
    let mut effects: Vec<Effect> = Vec::new();
    assert(effects.deep_view() =~= Seq::<EffectModel>::empty());
    report_one(&mut effects, found.connecting);
    assert(effects.deep_view() =~= failure(f.connecting));
    report(&mut effects, &settings_messages(&found.settings));
    report(&mut effects, &found.providers);
    report(&mut effects, &found.servers);
    report(&mut effects, &found.themes);
    let ghost before = effects.deep_view();
    assert(f.sessions.len() == found.sessions@.len());
    if found.sessions.len() > 0 {
        push(&mut effects, Effect::OfferSessions(found.sessions));
    } else {
        assert(before + Seq::<EffectModel>::empty() =~= before);
    }
    let ghost before = effects.deep_view();
    if found.resumed > 0 {
        push(&mut effects, Effect::Say(resumed_notice(found.resumed)));
    } else {
        assert(before + Seq::<EffectModel>::empty() =~= before);
    }
    let selecting = match found.selecting {
        Some(error) => {
            let mut text = error;
            text.push_str(". Run `octane models` to see what is configured.");
            Some(text)
        },
        None => None,
    };
    report_one(&mut effects, selecting);
    report(&mut effects, &command_messages(&found.commands));
    effects
}

/// A line of a completion menu.
#[derive(Debug, PartialEq, Eq)]
pub struct Candidate {
    pub value: String,
    pub detail: String,
}

/// What a [`Candidate`] is.
pub struct CandidateModel {
    pub value: Seq<char>,
    pub detail: Seq<char>,
}

impl DeepView for Candidate {
    type V = CandidateModel;

    open spec fn deep_view(&self) -> CandidateModel {
        CandidateModel { value: self.value@, detail: self.detail@ }
    }
}

/// A candidate under a name.
pub open spec fn candidate_of(name: Seq<char>, detail: Seq<char>) -> CandidateModel {
    CandidateModel { value: "/"@ + name, detail }
}

/// The commands that are offered, by name.
pub open spec fn command_candidates(
    names: Seq<Seq<char>>,
    commands: Map<Seq<char>, EntryModel>,
) -> Seq<CandidateModel> {
    Seq::new(
        names.len(),
        |i: int| candidate_of(commands[names[i]].name, detail_of(commands[names[i]])),
    )
}

/// The skills that are offered: those whose names no command has.
pub open spec fn skill_candidates(
    skills: Seq<(Seq<char>, Seq<char>)>,
    commands: Map<Seq<char>, EntryModel>,
) -> Seq<CandidateModel>
    decreases skills.len(),
{
    if skills.len() == 0 {
        Seq::empty()
    } else {
        let before = skill_candidates(skills.drop_last(), commands);
        let (name, description) = skills.last();
        if commands.dom().contains(trim_start_char_of("/"@ + name, '/')) {
            before
        } else {
            before.push(candidate_of(name, description))
        }
    }
}

/// Everything that `/` offers.
pub open spec fn candidates_of(
    names: Seq<Seq<char>>,
    skills: Seq<(Seq<char>, Seq<char>)>,
    commands: Map<Seq<char>, EntryModel>,
) -> Seq<CandidateModel> {
    command_candidates(names, commands) + skill_candidates(skills, commands)
}

/// Everything that `/` offers: commands, then skills as though they were commands. A
/// skill comes as its name and description.
pub fn candidates(commands: &Registry, skills: &Vec<(String, String)>) -> (r: Vec<Candidate>)
    ensures
        r.deep_view() == candidates_of(commands.names_of(), skills.deep_view(), commands@),
{
    let ghost names = commands.names_of();
    let ghost front = command_candidates(names, commands@);
    let ghost all = skills.deep_view();
    let mut r: Vec<Candidate> = Vec::new();
    let n: usize = commands.len();
    let mut i: usize = 0;
    assert(r.deep_view() =~= front.take(0));
    while i < n
        invariant
            i <= n == names.len(),
            names == commands.names_of(),
            front == command_candidates(names, commands@),
            r.deep_view() == front.take(i as int),
        decreases n - i,
    {
        let ghost before = r.deep_view();
        let entry = commands.at(i);
        let mut value = "/".to_owned();
        value.push_str(&entry.name);
        let candidate = Candidate { value, detail: entry.detail() };
        r.push(candidate);
        assert(r.deep_view() =~= before.push(candidate.deep_view()));
        assert(r.deep_view() =~= front.take(i + 1));
        i += 1;
    }
    assert(front.take(i as int) =~= front);
    let mut k: usize = 0;
    assert(all.take(0) =~= Seq::<(Seq<char>, Seq<char>)>::empty());
    assert(r.deep_view() =~= front + skill_candidates(all.take(0), commands@));
    while k < skills.len()
        invariant
            k <= skills@.len(),
            all == skills.deep_view(),
            r.deep_view() == front + skill_candidates(all.take(k as int), commands@),
        decreases skills@.len() - k,
    {
        let ghost before = r.deep_view();
        assert(all.take(k + 1).drop_last() =~= all.take(k as int));
        assert(all.take(k + 1).last() == skills@[k as int].deep_view());
        let mut value = "/".to_owned();
        value.push_str(&skills[k].0);
        if !commands.contains(&trim_start_char(&value, '/')) {
            let candidate = Candidate { value, detail: skills[k].1.clone() };
            r.push(candidate);
            assert(r.deep_view() =~= before.push(candidate.deep_view()));
            assert(r.deep_view() =~= front + skill_candidates(all.take(k + 1), commands@));
        }
        k += 1;
    }
    assert(all.take(k as int) =~= all);
    r
}

/// The directories that are searched for command files: the last is the project's.
pub open spec fn command_dirs_of(dirs: Seq<Seq<char>>) -> Seq<(Seq<char>, bool)> {
    Seq::new(dirs.len(), |i: int| (dirs[i], i == dirs.len() - 1))
}

/// Marks the project's directory among those searched for command files.
pub fn command_dirs(dirs: Vec<String>) -> (r: Vec<(String, bool)>)
    ensures
        r.deep_view() == command_dirs_of(dirs.deep_view()),
{
    let ghost all = dirs.deep_view();
    let ghost wanted = command_dirs_of(all);
    let count: usize = dirs.len();
    let mut r: Vec<(String, bool)> = Vec::new();
    let mut i: usize = 0;
    assert(r.deep_view() =~= wanted.take(0));
    while i < count
        invariant
            i <= count == dirs@.len(),
            all == dirs.deep_view(),
            wanted == command_dirs_of(all),
            r.deep_view() == wanted.take(i as int),
        decreases count - i,
    {
        let ghost before = r.deep_view();
        assert(all[i as int] == dirs@[i as int]@);
        let pair = (dirs[i].clone(), i == count - 1);
        r.push(pair);
        assert(r.deep_view() =~= before.push(pair.deep_view()));
        assert(r.deep_view() =~= wanted.take(i + 1));
        i += 1;
    }
    assert(wanted.take(i as int) =~= wanted);
    r
}

/// The record of a session. Its file is made on the first turn rather than at the
/// start, so that merely browsing the recorded sessions adds none to the list.
#[derive(Debug, Clone, Copy, PartialEq, Eq, Structural)]
pub struct Recording {
    /// Whether there is a file.
    pub open: bool,
}

/// A record after a turn: `created` is what became of making the file where there was
/// none, and `wrote` what became of writing to it. What is reported comes second.
pub open spec fn recorded(
    open: bool,
    created: Result<(), Seq<char>>,
    wrote: Result<(), Seq<char>>,
) -> (bool, Option<Seq<char>>) {
    if !open && created is Err {
        (false, Some("not recording this session: "@ + created->Err_0))
    } else {
        (
            true,
            match wrote {
                Ok(_) => None,
                Err(error) => Some("could not record the session: "@ + error),
            },
        )
    }
}

/// A result whose error is a text.
pub open spec fn outcome_of(r: Result<(), String>) -> Result<(), Seq<char>> {
    match r {
        Ok(_) => Ok(()),
        Err(error) => Err(error@),
    }
}

impl Recording {
    pub fn new() -> (r: Self)
        ensures
            !r.open,
    {
        Recording { open: false }
    }

    /// Takes in what became of recording a turn. A failure is reported and the session
    /// goes on; where no file could be made, the next turn tries again.
    pub fn record(&mut self, created: Result<(), String>, wrote: Result<(), String>) -> (r: Option<
        String,
    >)
        ensures
            (final(self).open, text_of(r)) == recorded(
                old(self).open,
                outcome_of(created),
                outcome_of(wrote),
            ),
    {
        if !self.open {
            match created {
                Ok(_) => {
                    self.open = true;
                },
                Err(error) => {
                    let mut text = "not recording this session: ".to_owned();
                    text.push_str(&error);
                    return Some(text);
                },
            }
        }
        match wrote {
            Ok(_) => None,
            Err(error) => {
                let mut text = "could not record the session: ".to_owned();
                text.push_str(&error);
                Some(text)
            },
        }
    }
}

/// A session whose file could not be made tries again: once it can be, the record is
/// open and stays so.
pub proof fn law_recording_recovers(
    first: Seq<char>,
    wrote: Result<(), Seq<char>>,
    created: Result<(), Seq<char>>,
    later: Result<(), Seq<char>>,
)
    ensures
        !recorded(false, Err(first), wrote).0,
        recorded(false, Ok(()), wrote).0,
        recorded(true, created, later).0,
{
}

/// A skill never takes a command's place in the menu: every command is offered, in
/// front, and no skill under a name that a command has.
pub proof fn law_skills_come_after_commands(
    names: Seq<Seq<char>>,
    skills: Seq<(Seq<char>, Seq<char>)>,
    commands: Map<Seq<char>, EntryModel>,
    i: int,
)
    requires
        0 <= i < candidates_of(names, skills, commands).len(),
    ensures
        i < names.len() ==> candidates_of(names, skills, commands)[i] == command_candidates(
            names,
            commands,
        )[i],
        i >= names.len() ==> !commands.dom().contains(
            trim_start_char_of(candidates_of(names, skills, commands)[i].value, '/'),
        ),
{
    if i >= names.len() {
        lemma_no_taken_name(skills, commands, i - names.len());
    }
}

proof fn lemma_no_taken_name(
    skills: Seq<(Seq<char>, Seq<char>)>,
    commands: Map<Seq<char>, EntryModel>,
    i: int,
)
    requires
        0 <= i < skill_candidates(skills, commands).len(),
    ensures
        !commands.dom().contains(
            trim_start_char_of(skill_candidates(skills, commands)[i].value, '/'),
        ),
    decreases skills.len(),
{
    let before = skill_candidates(skills.drop_last(), commands);
    if i < before.len() {
        lemma_no_taken_name(skills.drop_last(), commands, i);
    }
}

} // verus!
