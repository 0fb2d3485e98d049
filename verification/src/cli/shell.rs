//! Shell commands: the user's own, and those that a command file asks for.

use vstd::prelude::*;

use crate::commands::command::Command;
use crate::commands::expand::{
    expand, expanded, spliced, Expansion, ExpansionModel, RequestModel, ShellRequest,
};
use crate::commands::CommandError;
use crate::json;
use crate::json::{json_number, json_string};
use crate::permission::policy::{evaluated, Decision, Policy, PolicyModel};
use crate::permission::resource::{Action, Resource, ResourceModel};
use crate::permission::PermissionMode;
use crate::text::text_of;

verus! {

/// The `bash` tool's input for a command.
pub open spec fn shell_input_text(command: Seq<char>) -> Seq<char> {
    "{\"command\":"@ + json_string(command) + ",\"description\":"@ + json_string(command) + "}"@
}

/// The `bash` tool's input for a command. Built once, because it is both shown and
/// run.
pub fn shell_input(command: &str) -> (r: String)
    ensures
        r@ == shell_input_text(command@),
{
    let text = json::string(command);
    let mut r = "{\"command\":".to_owned();
    r.push_str(&text);
    r.push_str(",\"description\":");
    r.push_str(&text);
    r.push_str("}");
    r
}

/// The `read` tool's input for a file.
pub open spec fn read_input_text(path: Seq<char>) -> Seq<char> {
    "{\"path\":"@ + json_string(path) + "}"@
}

/// The `read` tool's input for a file.
pub fn read_input(path: &str) -> (r: String)
    ensures
        r@ == read_input_text(path@),
{
    let mut r = "{\"path\":".to_owned();
    r.push_str(&json::string(path));
    r.push_str("}");
    r
}

/// Whether a tool's metadata says that the command failed: it names an exit code
/// other than zero.
pub open spec fn failed_of(metadata: Option<Seq<char>>) -> bool {
    match metadata {
        Some(text) => match json_number(text, "exit_code"@) {
            Some(code) => code != 0,
            None => false,
        },
        None => false,
    }
}

/// What an exit code says of a command.
pub fn exit_failed(code: Option<u64>) -> (r: bool)
    ensures
        r == (code matches Some(n) && n != 0),
{
    match code {
        Some(code) => code != 0,
        None => false,
    }
}

/// Whether a tool's metadata says that the command failed.
pub fn shell_failed(metadata: &Option<String>) -> (r: bool)
    ensures
        r == failed_of(text_of(*metadata)),
{
    match metadata {
        Some(text) => exit_failed(json::number(text, "exit_code")),
        None => false,
    }
}

/// A question put to the user.
#[derive(Debug)]
pub struct Approval {
    pub resource: Resource,
    pub summary: String,
    /// Present for edits.
    pub diff: Option<String>,
}

/// What an [`Approval`] asks.
pub struct ApprovalModel {
    pub resource: ResourceModel,
    pub summary: Seq<char>,
    pub diff: Option<Seq<char>>,
}

impl DeepView for Approval {
    type V = ApprovalModel;

    open spec fn deep_view(&self) -> ApprovalModel {
        ApprovalModel {
            resource: self.resource.deep_view(),
            summary: self.summary@,
            diff: text_of(self.diff),
        }
    }
}

/// The resource that running a command is.
pub open spec fn command_resource(shell: Seq<char>) -> ResourceModel {
    ResourceModel { action: Action::Command, target: shell }
}

/// The question about a command that a command file wants run.
pub open spec fn approval_of(command: Seq<char>, shell: Seq<char>) -> ApprovalModel {
    ApprovalModel {
        resource: command_resource(shell),
        summary: "/"@ + command + " wants to run this and use its output"@,
        diff: None,
    }
}

/// The question about a command that a command file wants run. It names the file,
/// because the question is whether that file was meant to run anything.
pub fn shell_approval(command: &str, shell: &str) -> (r: Approval)
    ensures
        r.deep_view() == approval_of(command@, shell@),
{
    let mut summary = "/".to_owned();
    summary.push_str(command);
    summary.push_str(" wants to run this and use its output");
    Approval { resource: Resource::command(shell), summary, diff: None }
}

/// What the user is told of a command that the rules deny.
pub open spec fn denied_text(command: Seq<char>, shell: Seq<char>) -> Seq<char> {
    "/"@ + command + ": `"@ + shell + "` is denied by the permission rules and was not run."@
}

/// What the user is told of a command that they declined.
pub open spec fn declined_text(command: Seq<char>, shell: Seq<char>) -> Seq<char> {
    "/"@ + command + ": `"@ + shell + "` was not run."@
}

fn said_of(command: &str, shell: &str, ending: &str) -> (r: String)
    ensures
        r@ == "/"@ + command@ + ": `"@ + shell@ + ending@,
{
    let mut r = "/".to_owned();
    r.push_str(command);
    r.push_str(": `");
    r.push_str(shell);
    r.push_str(ending);
    r
}

/// What an expansion waits for.
#[derive(Debug, Clone, Copy, PartialEq, Eq, Structural)]
pub enum Awaits {
    /// To be started.
    Start,
    /// The user's answer about the current request.
    Answer,
    /// The current request's output.
    Output,
    /// Nothing: the prompt is complete.
    Nothing,
}

/// A command file on its way to a prompt.
#[derive(Debug)]
pub struct Expanding {
    pub name: String,
    pub expansion: Expansion,
    /// The request that is being dealt with.
    pub at: usize,
    /// What the approved ones printed.
    pub results: Vec<(ShellRequest, String)>,
    pub awaits: Awaits,
}

/// What an [`Expanding`] is.
pub struct ExpandingModel {
    pub name: Seq<char>,
    pub expansion: ExpansionModel,
    pub at: int,
    pub results: Seq<(RequestModel, Seq<char>)>,
    pub awaits: Awaits,
}

impl DeepView for Expanding {
    type V = ExpandingModel;

    open spec fn deep_view(&self) -> ExpandingModel {
        ExpandingModel {
            name: self.name@,
            expansion: self.expansion.deep_view(),
            at: self.at as int,
            results: self.results.deep_view(),
            awaits: self.awaits,
        }
    }
}

/// What an expansion relies on between two inputs.
pub open spec fn expanding_wf(e: ExpandingModel) -> bool {
    &&& 0 <= e.at <= e.expansion.shell_requests.len()
    &&& e.awaits == Awaits::Answer || e.awaits == Awaits::Output ==> e.at
        < e.expansion.shell_requests.len()
}

/// Something that happened.
#[derive(Debug)]
pub enum ShellReply {
    Begin,
    Answered(bool),
    Ran(String),
}

/// What a [`ShellReply`] says.
pub enum ReplyModel {
    Begin,
    Answered(bool),
    Ran(Seq<char>),
}

impl DeepView for ShellReply {
    type V = ReplyModel;

    open spec fn deep_view(&self) -> ReplyModel {
        match *self {
            ShellReply::Begin => ReplyModel::Begin,
            ShellReply::Answered(yes) => ReplyModel::Answered(yes),
            ShellReply::Ran(output) => ReplyModel::Ran(output@),
        }
    }
}

/// Whether an expansion waits for a reply.
pub open spec fn reply_expected(awaits: Awaits, reply: ReplyModel) -> bool {
    match reply {
        ReplyModel::Begin => awaits == Awaits::Start,
        ReplyModel::Answered(_) => awaits == Awaits::Answer,
        ReplyModel::Ran(_) => awaits == Awaits::Output,
    }
}

/// What has to happen next.
#[derive(Debug)]
pub enum ShellStep {
    /// Put the question to the user.
    Ask(Approval),
    /// Show the command and run it.
    Run(String),
    /// Send the prompt.
    Send(String),
}

/// What a [`ShellStep`] says.
pub enum StepModel {
    Ask(ApprovalModel),
    Run(Seq<char>),
    Send(Seq<char>),
}

impl DeepView for ShellStep {
    type V = StepModel;

    open spec fn deep_view(&self) -> StepModel {
        match *self {
            ShellStep::Ask(approval) => StepModel::Ask(approval.deep_view()),
            ShellStep::Run(command) => StepModel::Run(command@),
            ShellStep::Send(prompt) => StepModel::Send(prompt@),
        }
    }
}

/// What the rules say of a command.
pub open spec fn ruling(policy: PolicyModel, mode: PermissionMode, shell: Seq<char>) -> Decision {
    evaluated(policy, command_resource(shell), mode).decision
}

/// An expansion after its requests were dealt with from the current one on, as far
/// as nobody has to be waited for; what the user is told; and what comes next.
pub open spec fn walked(
    e: ExpandingModel,
    told: Seq<Seq<char>>,
    policy: PolicyModel,
    mode: PermissionMode,
) -> (ExpandingModel, Seq<Seq<char>>, StepModel)
    decreases e.expansion.shell_requests.len() - e.at,
{
    let requests = e.expansion.shell_requests;
    if e.at < 0 || e.at >= requests.len() {
        (
            ExpandingModel { awaits: Awaits::Nothing, ..e },
            told,
            StepModel::Send(spliced(e.expansion, e.results)),
        )
    } else {
        let shell = requests[e.at].command;
        match ruling(policy, mode, shell) {
            Decision::Allow => (
                ExpandingModel { awaits: Awaits::Output, ..e },
                told,
                StepModel::Run(shell),
            ),
            Decision::Ask => (
                ExpandingModel { awaits: Awaits::Answer, ..e },
                told,
                StepModel::Ask(approval_of(e.name, shell)),
            ),
            Decision::Deny => walked(
                ExpandingModel { at: e.at + 1, ..e },
                told.push(denied_text(e.name, shell)),
                policy,
                mode,
            ),
        }
    }
}

/// An expansion after a reply.
pub open spec fn replied(
    e: ExpandingModel,
    told: Seq<Seq<char>>,
    policy: PolicyModel,
    mode: PermissionMode,
    reply: ReplyModel,
) -> (ExpandingModel, Seq<Seq<char>>, StepModel) {
    let request = e.expansion.shell_requests[e.at];
    match reply {
        ReplyModel::Begin => walked(e, told, policy, mode),
        ReplyModel::Answered(true) => (
            ExpandingModel { awaits: Awaits::Output, ..e },
            told,
            StepModel::Run(request.command),
        ),
        ReplyModel::Answered(false) => walked(
            ExpandingModel { at: e.at + 1, ..e },
            told.push(declined_text(e.name, request.command)),
            policy,
            mode,
        ),
        ReplyModel::Ran(output) => walked(
            ExpandingModel { at: e.at + 1, results: e.results.push((request, output)), ..e },
            told,
            policy,
            mode,
        ),
    }
}

impl Expanding {
    /// A command file about to be expanded. Nothing has run yet; where an argument is
    /// missing, nothing will.
    pub fn new(command: &Command, args: &str) -> (r: Result<Expanding, CommandError>)
        ensures
            ({
                let required = crate::commands::command::highest_position(
                    command.template@,
                    command.template@.len() as int,
                );
                let given = crate::text::words_of(args@).len();
                match r {
                    Ok(expanding) => given >= required && expanding.deep_view() == (
                    ExpandingModel {
                        name: command.name@,
                        expansion: expanded(command.template@, args@),
                        at: 0,
                        results: Seq::empty(),
                        awaits: Awaits::Start,
                    }) && expanding_wf(expanding.deep_view()),
                    Err(CommandError::MissingArguments { name, expected, actual }) => {
                        &&& given < required
                        &&& name == command.name
                        &&& expected == required
                        &&& actual == given
                    },
                    Err(_) => false,
                }
            }),
    {
        match expand(command, args) {
            Ok(expansion) => {
                let r = Expanding {
                    name: command.name.clone(),
                    expansion,
                    at: 0,
                    results: Vec::new(),
                    awaits: Awaits::Start,
                };
                assert(r.results.deep_view() =~= Seq::<(RequestModel, Seq<char>)>::empty());
                Ok(r)
            },
            Err(error) => Err(error),
        }
    }

    /// Whether the expansion waits for this reply.
    pub fn expects(&self, reply: &ShellReply) -> (r: bool)
        ensures
            r == reply_expected(self.deep_view().awaits, reply.deep_view()),
    {
        match reply {
            ShellReply::Begin => self.awaits == Awaits::Start,
            ShellReply::Answered(_) => self.awaits == Awaits::Answer,
            ShellReply::Ran(_) => self.awaits == Awaits::Output,
        }
    }

    /// Takes what happened and says what comes next. What the user is to be told is
    /// added to `told`.
    pub fn next(
        &mut self,
        told: &mut Vec<String>,
        policy: &Policy,
        mode: PermissionMode,
        reply: ShellReply,
    ) -> (r: ShellStep)
        requires
            expanding_wf(old(self).deep_view()),
            reply_expected(old(self).deep_view().awaits, reply.deep_view()),
        ensures
            (final(self).deep_view(), final(told).deep_view(), r.deep_view()) == replied(
                old(self).deep_view(),
                old(told).deep_view(),
                policy.deep_view(),
                mode,
                reply.deep_view(),
            ),
            expanding_wf(final(self).deep_view()),
    {
        let ghost before = self.deep_view();
        let ghost earlier = told.deep_view();
        let n: usize = self.expansion.shell_requests.len();
        assert(n == before.expansion.shell_requests.len());
        match reply {
            ShellReply::Begin => {},
            ShellReply::Answered(yes) => {
                assert(before.expansion.shell_requests[before.at]
                    == self.expansion.shell_requests@[self.at as int].deep_view());
                if yes {
                    let command = self.expansion.shell_requests[self.at].command.clone();
                    self.awaits = Awaits::Output;
                    return ShellStep::Run(command);
                }
                let line = said_of(
                    &self.name,
                    &self.expansion.shell_requests[self.at].command,
                    "` was not run.",
                );
                told.push(line);
                assert(told.deep_view() =~= earlier.push(line@));
                self.at = self.at + 1;
            },
            ShellReply::Ran(output) => {
                assert(before.expansion.shell_requests[before.at]
                    == self.expansion.shell_requests@[self.at as int].deep_view());
                let request = self.expansion.shell_requests[self.at].clone();
                let ghost pair = (request.deep_view(), output@);
                self.results.push((request, output));
                assert(self.results.deep_view() =~= before.results.push(pair));
                self.at = self.at + 1;
            },
        }
        self.walk(told, policy, mode)
    }

    fn walk(&mut self, told: &mut Vec<String>, policy: &Policy, mode: PermissionMode) -> (r:
        ShellStep)
        requires
            old(self).at <= old(self).expansion.shell_requests@.len(),
        ensures
            (final(self).deep_view(), final(told).deep_view(), r.deep_view()) == walked(
                old(self).deep_view(),
                old(told).deep_view(),
                policy.deep_view(),
                mode,
            ),
            expanding_wf(final(self).deep_view()),
    {
        let ghost whole = walked(self.deep_view(), told.deep_view(), policy.deep_view(), mode);
        let n: usize = self.expansion.shell_requests.len();
        while self.at < n
            invariant
                self.at <= n == self.expansion.shell_requests@.len(),
                whole == walked(
                    old(self).deep_view(),
                    old(told).deep_view(),
                    policy.deep_view(),
                    mode,
                ),
                whole == walked(self.deep_view(), told.deep_view(), policy.deep_view(), mode),
            decreases n - self.at,
        {
            let ghost earlier = told.deep_view();
            assert(self.deep_view().expansion.shell_requests[self.at as int]
                == self.expansion.shell_requests@[self.at as int].deep_view());
            let shell = self.expansion.shell_requests[self.at].command.clone();
            match policy.evaluate(&Resource::command(&shell), mode).decision {
                Decision::Allow => {
                    self.awaits = Awaits::Output;
                    return ShellStep::Run(shell);
                },
                Decision::Ask => {
                    let approval = shell_approval(&self.name, &shell);
                    self.awaits = Awaits::Answer;
                    return ShellStep::Ask(approval);
                },
                Decision::Deny => {
                    let line = said_of(
                        &self.name,
                        &shell,
                        "` is denied by the permission rules and was not run.",
                    );
                    told.push(line);
                    assert(told.deep_view() =~= earlier.push(line@));
                    self.at = self.at + 1;
                },
            }
        }
        self.awaits = Awaits::Nothing;
        ShellStep::Send(self.expansion.clone().apply_shell_results(&self.results))
    }
}

/// A command file gets no more trust than a model: what it asks for runs only if the
/// rules allow it, or if they leave it to the user and the user says yes.
pub proof fn law_no_command_runs_unasked(
    e: ExpandingModel,
    told: Seq<Seq<char>>,
    policy: PolicyModel,
    mode: PermissionMode,
    reply: ReplyModel,
)
    requires
        expanding_wf(e),
        reply_expected(e.awaits, reply),
    ensures
        match replied(e, told, policy, mode, reply).2 {
            StepModel::Run(shell) => {
                ||| ruling(policy, mode, shell) == Decision::Allow
                ||| reply == ReplyModel::Answered(true) && shell
                    == e.expansion.shell_requests[e.at].command
            },
            StepModel::Ask(approval) => {
                &&& approval.resource.action == Action::Command
                &&& ruling(policy, mode, approval.resource.target) == Decision::Ask
            },
            StepModel::Send(_) => true,
        },
{
    match reply {
        ReplyModel::Begin => lemma_walk_asks(e, told, policy, mode),
        ReplyModel::Answered(false) => lemma_walk_asks(
            ExpandingModel { at: e.at + 1, ..e },
            told.push(declined_text(e.name, e.expansion.shell_requests[e.at].command)),
            policy,
            mode,
        ),
        ReplyModel::Answered(true) => {},
        ReplyModel::Ran(output) => lemma_walk_asks(
            ExpandingModel {
                at: e.at + 1,
                results: e.results.push((e.expansion.shell_requests[e.at], output)),
                ..e
            },
            told,
            policy,
            mode,
        ),
    }
}

proof fn lemma_walk_asks(
    e: ExpandingModel,
    told: Seq<Seq<char>>,
    policy: PolicyModel,
    mode: PermissionMode,
)
    ensures
        match walked(e, told, policy, mode).2 {
            StepModel::Run(shell) => ruling(policy, mode, shell) == Decision::Allow,
            StepModel::Ask(approval) => {
                &&& approval.resource.action == Action::Command
                &&& ruling(policy, mode, approval.resource.target) == Decision::Ask
            },
            StepModel::Send(_) => true,
        },
    decreases e.expansion.shell_requests.len() - e.at,
{
    let requests = e.expansion.shell_requests;
    if 0 <= e.at < requests.len() {
        let shell = requests[e.at].command;
        if ruling(policy, mode, shell) == Decision::Deny {
            lemma_walk_asks(
                ExpandingModel { at: e.at + 1, ..e },
                told.push(denied_text(e.name, shell)),
                policy,
                mode,
            );
        }
    }
}

/// A denial is never put to the user: where the rules deny everything that a command
/// file asks for, its prompt is sent with nothing run, and each refusal is told.
pub proof fn law_a_denial_is_not_asked_about(
    e: ExpandingModel,
    told: Seq<Seq<char>>,
    policy: PolicyModel,
    mode: PermissionMode,
)
    requires
        0 <= e.at <= e.expansion.shell_requests.len(),
        forall|i: int|
            e.at <= i < e.expansion.shell_requests.len() ==> ruling(
                policy,
                mode,
                (#[trigger] e.expansion.shell_requests[i]).command,
            ) == Decision::Deny,
    ensures
        walked(e, told, policy, mode).2 == StepModel::Send(spliced(e.expansion, e.results)),
        walked(e, told, policy, mode).1.len() == told.len() + e.expansion.shell_requests.len()
            - e.at,
    decreases e.expansion.shell_requests.len() - e.at,
{
    if e.at < e.expansion.shell_requests.len() {
        law_a_denial_is_not_asked_about(
            ExpandingModel { at: e.at + 1, ..e },
            told.push(denied_text(e.name, e.expansion.shell_requests[e.at].command)),
            policy,
            mode,
        );
    }
}

} // verus!
