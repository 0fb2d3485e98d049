//! Prompt assembly, ordered for cache stability.
//!
//! Content is layered most-static first, so that every turn shares the longest
//! possible prefix with the one before. What was sent is never edited or reordered;
//! a change is appended.

use vstd::prelude::*;

use crate::order::{key_fn, law_sorting, sort, sorted_by_key, Keyed};
use crate::protocol::message::{
    copy_of, text_message, Message, MessageModel, Part, PartModel, Role,
};
use crate::text::{text_of, trim, trim_of};

verus! {

/// The primary agent's identity and operating rules.
pub const BASE_INSTRUCTIONS: &'static str = "\
You are octane, an AI coding agent working in a terminal.

Work directly on the user's codebase using the tools you are given. Read before \
you write: inspect the file you are about to change, and prefer a narrow edit \
over a rewrite. Match the conventions of the surrounding code rather than \
importing your own.

Tool calls are how you act; prose is how you report. Do not narrate what you \
are about to do before doing it, and do not describe a change you have not \
made. When you have finished, say what you did in a sentence or two — the user \
is reading a terminal, not a report.

Work the task to completion in one turn. Reading a file is not finishing; \
neither is describing a plan. Keep calling tools until the change is actually \
made, then report. Do not stop to ask whether to continue, and do not end a \
turn expecting the user to tell you to carry on: they asked once. If part \
of the task is genuinely blocked, do the rest and say which part is \
blocked and why.

You may be refused. A denial is the user's decision, not an obstacle to route \
around: do not retry the same action by another means. If a command is blocked \
or a path is unwritable, say so plainly and stop.

Say what is true about what you did. If a test failed, quote it. If you skipped \
part of the task, name the part. Never claim a verification you did not run.";

/// Assembles the prompt for one inference step.
#[derive(Debug)]
pub struct PromptAssembler {
    pub base_instructions: String,
    pub environment: Option<String>,
    pub sandbox_description: Option<String>,
    pub skill_manifest: Option<String>,
    pub memory: Option<String>,
    /// Fenced, attributed guidance from connected MCP servers.
    pub mcp_instructions: Option<String>,
}

/// What a [`PromptAssembler`] holds.
pub struct PromptModel {
    pub base_instructions: Seq<char>,
    pub environment: Option<Seq<char>>,
    pub sandbox_description: Option<Seq<char>>,
    pub skill_manifest: Option<Seq<char>>,
    pub memory: Option<Seq<char>>,
    pub mcp_instructions: Option<Seq<char>>,
}

impl DeepView for PromptAssembler {
    type V = PromptModel;

    open spec fn deep_view(&self) -> PromptModel {
        PromptModel {
            base_instructions: self.base_instructions@,
            environment: text_of(self.environment),
            sandbox_description: text_of(self.sandbox_description),
            skill_manifest: text_of(self.skill_manifest),
            memory: text_of(self.memory),
            mcp_instructions: text_of(self.mcp_instructions),
        }
    }
}

/// One developer message, or nothing.
pub open spec fn layer(text: Option<Seq<char>>) -> Seq<MessageModel> {
    match text {
        Some(text) => seq![text_message(Role::Developer, text)],
        None => Seq::empty(),
    }
}

/// The messages in front of the history: the system instructions, then developer
/// context from the most static to the least.
pub open spec fn preamble(p: PromptModel) -> Seq<MessageModel> {
    seq![text_message(Role::System, p.base_instructions)] + layer(p.sandbox_description) + layer(
        p.skill_manifest,
    ) + layer(p.memory) + layer(p.mcp_instructions) + layer(p.environment)
}

/// One new message, or nothing.
pub open spec fn optional(input: Option<Message>) -> Seq<MessageModel> {
    match input {
        Some(message) => seq![message.deep_view()],
        None => Seq::empty(),
    }
}

/// A note that the harness injects.
pub open spec fn notice_message(text: Seq<char>) -> MessageModel {
    MessageModel { role: Role::Developer, parts: seq![PartModel::Synthetic { text }] }
}

fn push_layer(messages: &mut Vec<Message>, text: &Option<String>)
    ensures
        final(messages).deep_view() == old(messages).deep_view() + layer(text_of(*text)),
{
    let ghost before = messages.deep_view();
    match text {
        Some(text) => {
            let message = Message::text(Role::Developer, text);
            messages.push(message);
            assert(messages.deep_view() =~= before + seq![message.deep_view()]);
        },
        None => {
            assert(before + Seq::<MessageModel>::empty() =~= before);
        },
    }
}

fn count(text: &Option<String>) -> (r: usize)
    ensures
        r == layer(text_of(*text)).len(),
        r <= 1,
{
    match text {
        Some(_) => 1,
        None => 0,
    }
}

impl Default for PromptAssembler {
    fn default() -> (r: Self)
        ensures
            r.deep_view() == bare(Seq::empty()),
    {
        proof {
            reveal_strlit("");
            assert(""@ =~= Seq::<char>::empty());
        }
        PromptAssembler::new("")
    }
}

/// A prompt that holds base instructions alone.
pub open spec fn bare(base_instructions: Seq<char>) -> PromptModel {
    PromptModel {
        base_instructions,
        environment: None,
        sandbox_description: None,
        skill_manifest: None,
        memory: None,
        mcp_instructions: None,
    }
}

impl PromptAssembler {
    pub fn new(base_instructions: &str) -> (r: Self)
        ensures
            r.deep_view() == bare(base_instructions@),
    {
        PromptAssembler {
            base_instructions: base_instructions.to_owned(),
            environment: None,
            sandbox_description: None,
            skill_manifest: None,
            memory: None,
            mcp_instructions: None,
        }
    }

    /// Working directory, platform, date: a snapshot.
    pub fn environment(self, description: &str) -> (r: Self)
        ensures
            r.deep_view() == (PromptModel { environment: Some(description@), ..self.deep_view() }),
    {
        let mut p = self;
        p.environment = Some(description.to_owned());
        p
    }

    /// What the sandbox permits.
    pub fn sandbox(self, description: &str) -> (r: Self)
        ensures
            r.deep_view() == (PromptModel {
                sandbox_description: Some(description@),
                ..self.deep_view()
            }),
    {
        let mut p = self;
        p.sandbox_description = Some(description.to_owned());
        p
    }

    /// The skill list: names and descriptions only.
    pub fn skills(self, manifest: &str) -> (r: Self)
        ensures
            r.deep_view() == (PromptModel { skill_manifest: Some(manifest@), ..self.deep_view() }),
    {
        let mut p = self;
        p.skill_manifest = Some(manifest.to_owned());
        p
    }

    /// The project's own instructions.
    pub fn memory(self, rendered: &str) -> (r: Self)
        ensures
            r.deep_view() == (PromptModel { memory: Some(rendered@), ..self.deep_view() }),
    {
        let mut p = self;
        p.memory = Some(rendered.to_owned());
        p
    }

    /// Guidance supplied by connected MCP servers; blank text adds nothing.
    pub fn mcp_instructions(self, rendered: &str) -> (r: Self)
        ensures
            r.deep_view() == (if trim_of(rendered@).len() == 0 {
                self.deep_view()
            } else {
                PromptModel { mcp_instructions: Some(rendered@), ..self.deep_view() }
            }),
    {
        let mut p = self;
        if !trim(rendered).as_str().is_empty() {
            p.mcp_instructions = Some(rendered.to_owned());
        }
        p
    }

    /// How many messages `assemble` puts in front of the history.
    pub fn preamble_len(&self) -> (r: usize)
        ensures
            r == preamble(self.deep_view()).len(),
            1 <= r <= 6,
    {
        1 + count(&self.sandbox_description) + count(&self.skill_manifest) + count(&self.memory)
            + count(&self.mcp_instructions) + count(&self.environment)
    }

    /// Builds the prompt: the preamble, the history verbatim, the new input.
    pub fn assemble(&self, history: &[Message], new_input: Option<Message>) -> (r: Vec<Message>)
        ensures
            r.deep_view() == preamble(self.deep_view()) + history.deep_view() + optional(new_input),
    {
        let mut messages: Vec<Message> = Vec::new();
        let first = Message::text(Role::System, &self.base_instructions);
        messages.push(first);
        assert(messages.deep_view() =~= seq![first.deep_view()]);
        push_layer(&mut messages, &self.sandbox_description);
        push_layer(&mut messages, &self.skill_manifest);
        push_layer(&mut messages, &self.memory);
        push_layer(&mut messages, &self.mcp_instructions);
        push_layer(&mut messages, &self.environment);
        let ghost front = messages.deep_view();
        let mut rest = copy_of(history, 0, history.len());
        let ghost copied = rest.deep_view();
        assert(copied =~= history.deep_view());
        messages.append(&mut rest);
        assert(messages.deep_view() =~= front + copied);
        let ghost before = messages.deep_view();
        match new_input {
            Some(input) => {
                messages.push(input);
                assert(messages.deep_view() =~= before + seq![input.deep_view()]);
            },
            None => {
                assert(before + Seq::<MessageModel>::empty() =~= before);
            },
        }
        messages
    }

    /// Appends a change in mid-session, without disturbing what was sent.
    pub fn append_change_notice(history: &mut Vec<Message>, notice: &str)
        ensures
            final(history).deep_view() == old(history).deep_view().push(notice_message(notice@)),
    {
        let ghost before = history.deep_view();
        let mut parts: Vec<Part> = Vec::new();
        parts.push(Part::Synthetic { text: notice.to_owned() });
        assert(parts.deep_view() =~= seq![PartModel::Synthetic { text: notice@ }]);
        let message = Message { role: Role::Developer, parts };
        history.push(message);
        assert(history.deep_view() =~= before.push(message.deep_view()));
    }
}

/// A tool as the model is told of it. The input schema is JSON text.
#[derive(Debug, PartialEq, Eq)]
pub struct ToolSchema {
    pub name: String,
    pub description: String,
    pub input_schema: String,
}

impl Keyed for ToolSchema {
    open spec fn key_of(&self) -> Seq<char> {
        self.name@
    }

    fn key(&self) -> (r: &str) {
        self.name.as_str()
    }
}

/// Sorts tool schemas by name. They stand in the cached prefix, so their order
/// has to be stable.
pub fn sorted_tools(tools: Vec<ToolSchema>) -> (r: Vec<ToolSchema>)
    ensures
        r@ == sorted_by_key(tools@, key_fn::<ToolSchema>()),
{
    sort(tools)
}

/// What the model is told of a mode switch.
pub open spec fn mode_switch_text(from: Seq<char>, to: Seq<char>) -> Seq<char> {
    "<system-reminder>\nYour operational mode changed from "@ + from + " to "@ + to
        + ".\nThe tools and permissions available to you have changed accordingly.\n</system-reminder>"@
}

/// A mode switch, injected so that the model knows its constraints changed.
pub fn mode_switch_notice(from: &str, to: &str) -> (r: String)
    ensures
        r@ == mode_switch_text(from@, to@),
{
    let mut r = "<system-reminder>\nYour operational mode changed from ".to_owned();
    r.push_str(from);
    r.push_str(" to ");
    r.push_str(to);
    r.push_str(
        ".\nThe tools and permissions available to you have changed accordingly.\n</system-reminder>",
    );
    r
}

/// The instructions come first and nothing else is a system message in front of
/// the history, so nothing outranks them.
pub proof fn law_instructions_come_first(p: PromptModel)
    ensures
        preamble(p).len() >= 1,
        preamble(p)[0] == text_message(Role::System, p.base_instructions),
        forall|i: int| 1 <= i < preamble(p).len() ==> (#[trigger] preamble(p)[i]).role
            == Role::Developer,
{
}

/// The prefix is stable: two prompts of one session agree on the preamble and on
/// as much of the history as they share.
pub proof fn law_prefix_is_stable(
    p: PromptModel,
    history: Seq<MessageModel>,
    more: Seq<MessageModel>,
    input: Seq<MessageModel>,
)
    ensures
        ({
            let earlier = preamble(p) + history;
            let later = preamble(p) + (history + more) + input;
            earlier.is_prefix_of(later)
        }),
{
    let earlier = preamble(p) + history;
    let later = preamble(p) + (history + more) + input;
    assert(earlier =~= later.subrange(0, earlier.len() as int));
}

/// A change notice is appended: what was sent before is untouched.
pub proof fn law_notices_append(history: Seq<MessageModel>, notice: Seq<char>)
    ensures
        history.is_prefix_of(history.push(notice_message(notice))),
{
    let after = history.push(notice_message(notice));
    assert(history =~= after.subrange(0, history.len() as int));
}

/// Tools come out in the order of their names, none lost and none added.
pub proof fn law_tools_are_in_order(tools: Seq<ToolSchema>)
    ensures
        crate::order::in_order(
            sorted_by_key(tools, key_fn::<ToolSchema>()),
            key_fn::<ToolSchema>(),
        ),
        sorted_by_key(tools, key_fn::<ToolSchema>()).to_multiset() == tools.to_multiset(),
{
    law_sorting(tools, key_fn::<ToolSchema>());
}

/// One if there is something, none if there is not.
pub open spec fn counted(text: Option<Seq<char>>) -> int {
    if text is Some {
        1
    } else {
        0
    }
}

/// Whether a text stands at a place of a prompt, as something the harness says.
pub open spec fn told_at(all: Seq<MessageModel>, i: int, text: Seq<char>) -> bool {
    &&& 0 <= i < all.len()
    &&& all[i].role == Role::Developer
    &&& all[i].parts == seq![PartModel::Text { text }]
}

/// Nothing that was given is left out and nothing else is told: behind the instructions
/// stand what the sandbox allows, the skills, memory, what servers say and the
/// environment, those that were given, in this order.
pub proof fn law_every_layer_is_told(p: PromptModel)
    ensures
        ({
            let all = preamble(p);
            let sandbox = counted(p.sandbox_description);
            let skills = sandbox + counted(p.skill_manifest);
            let memory = skills + counted(p.memory);
            let servers = memory + counted(p.mcp_instructions);
            &&& all.len() == 1 + servers + counted(p.environment)
            &&& p.sandbox_description matches Some(text) ==> told_at(all, 1, text)
            &&& p.skill_manifest matches Some(text) ==> told_at(all, 1 + sandbox, text)
            &&& p.memory matches Some(text) ==> told_at(all, 1 + skills, text)
            &&& p.mcp_instructions matches Some(text) ==> told_at(all, 1 + memory, text)
            &&& p.environment matches Some(text) ==> told_at(all, 1 + servers, text)
        }),
{
}

/// A notice says its text, as something the harness says.
pub proof fn law_a_notice_says_its_text(notice: Seq<char>)
    ensures
        notice_message(notice).role == Role::Developer,
        notice_message(notice).parts == seq![PartModel::Synthetic { text: notice }],
{
}

/// What is asked now comes last, if something is.
pub proof fn law_the_new_input_comes_last(
    p: PromptModel,
    history: Seq<MessageModel>,
    input: Message,
)
    ensures
        (preamble(p) + history + optional(Some(input))) == (preamble(p) + history).push(
            input.deep_view(),
        ),
        (preamble(p) + history + optional(None)) == preamble(p) + history,
{
    assert((preamble(p) + history + optional(Some(input))) =~= (preamble(p) + history).push(
        input.deep_view(),
    ));
    assert((preamble(p) + history + optional(None)) =~= preamble(p) + history);
}

} // verus!
