//! The `task` tool: delegating to a subagent.
//!
//! What fills a context is the process of a task, not its result. A subagent has a
//! context of its own, and only its report comes back. The tool decides which agent
//! runs and what it is told; running it is somebody else's.

use vstd::prelude::*;

use crate::config::agent::{manifest_of, scope_label, AgentDefinition, AgentMode, AgentModel};
use crate::engine::tool::{ToolError, ToolErrorModel, ToolOutcome, ToolOutcomeModel};
use crate::json;
use crate::json::{json_string, json_strings};
use crate::text::{join, join_of, quoted, quoted_of, same, text_of, trim, trim_of};

verus! {

/// Delegates to subagents.
#[derive(Debug)]
pub struct TaskTool {
    agents: Vec<AgentDefinition>,
    description: String,
}

/// The agents that can be delegated to: those that are offered and cannot delegate
/// themselves.
pub open spec fn delegable(agents: Seq<AgentModel>) -> Seq<AgentModel>
    decreases agents.len(),
{
    if agents.len() == 0 {
        agents
    } else if agents.last().frontmatter.mode == AgentMode::Subagent {
        delegable(agents.drop_last()).push(agents.last())
    } else {
        delegable(agents.drop_last())
    }
}

/// What stands before the roster.
pub open spec fn roster_head() -> Seq<char> {
    "Delegates a task to a specialised subagent running in its own context.\n\nUse this when the *process* of a task would fill your context with output you do not need to keep — a broad search, a test run, a review. What comes back is the subagent's report, not its transcript.\n\nAvailable agents:\n"@
}

/// What stands behind the roster.
pub open spec fn roster_tail() -> Seq<char> {
    "\nUsage:\n- Launch several in one message when the work is independent; they run concurrently.\n- Each invocation is stateless and one-shot. The subagent cannot ask you anything, so `prompt` must be self-contained and must say exactly what to report back.\n- Say whether you want investigation or changes — the subagent does not know what the user asked for.\n- The result is not shown to the user. Summarise anything they should see.\n- Do not delegate work you can do in one or two tool calls; the round trip costs more than it saves.\n"@
}

/// The roster: a line for each agent.
pub open spec fn roster(agents: Seq<AgentModel>) -> Seq<char>
    decreases agents.len(),
{
    if agents.len() == 0 {
        Seq::empty()
    } else {
        roster(agents.drop_last()) + manifest_of(agents.last()) + "\n"@
    }
}

/// The names of agents.
pub open spec fn names_of(agents: Seq<AgentModel>) -> Seq<Seq<char>> {
    Seq::new(agents.len(), |i: int| agents[i].name)
}

/// Where the first agent with a name stands; the number of them if none has it.
pub open spec fn agent_at(agents: Seq<AgentModel>, name: Seq<char>) -> int
    decreases agents.len(),
{
    if agents.len() == 0 {
        0
    } else if agents[0].name == name {
        0
    } else {
        1 + agent_at(agents.drop_first(), name)
    }
}

/// What the model asked for.
#[derive(Debug, PartialEq, Eq)]
pub struct TaskInput {
    /// Which agent to run.
    pub agent: String,
    /// What it should do.
    pub prompt: String,
    /// A few words for the screen.
    pub description: Option<String>,
}

/// What a [`TaskInput`] is.
pub struct TaskInputModel {
    pub agent: Seq<char>,
    pub prompt: Seq<char>,
    pub description: Option<Seq<char>>,
}

impl DeepView for TaskInput {
    type V = TaskInputModel;

    open spec fn deep_view(&self) -> TaskInputModel {
        TaskInputModel {
            agent: self.agent@,
            prompt: self.prompt@,
            description: text_of(self.description),
        }
    }
}

/// A task that can be run.
#[derive(Debug)]
pub struct Task {
    pub agent: AgentDefinition,
    pub prompt: String,
    pub title: String,
}

/// What a [`Task`] is.
pub struct TaskModel {
    pub agent: AgentModel,
    pub prompt: Seq<char>,
    pub title: Seq<char>,
}

impl DeepView for Task {
    type V = TaskModel;

    open spec fn deep_view(&self) -> TaskModel {
        TaskModel { agent: self.agent.deep_view(), prompt: self.prompt@, title: self.title@ }
    }
}

/// What the arguments of a call come to.
pub open spec fn task_of(agents: Seq<AgentModel>, input: Result<TaskInputModel, Seq<char>>) -> Result<
    TaskModel,
    ToolErrorModel,
> {
    match input {
        Err(error) => Err(ToolErrorModel::Recoverable("invalid arguments: "@ + error)),
        Ok(input) => {
            let at = agent_at(agents, input.agent);
            if at >= agents.len() {
                Err(
                    ToolErrorModel::Recoverable(
                        "no agent named "@ + quoted_of(input.agent) + ". Available: "@ + join_of(
                            names_of(agents),
                            ", "@,
                        ),
                    ),
                )
            } else if trim_of(input.prompt).len() == 0 {
                Err(
                    ToolErrorModel::Recoverable(
                        "prompt must not be empty — the subagent cannot ask what you meant"@,
                    ),
                )
            } else {
                Ok(
                    TaskModel {
                        agent: agents[at],
                        prompt: input.prompt,
                        title: match input.description {
                            Some(title) => title,
                            None => agents[at].name + " subagent"@,
                        },
                    },
                )
            }
        },
    }
}

/// What is recorded of a task that ran.
pub open spec fn task_metadata(agent: AgentModel) -> Seq<char> {
    "{\"agent\":"@ + json_string(agent.name) + ",\"scope\":"@ + json_string(
        scope_label(agent.scope),
    ) + "}"@
}

/// What a subagent's report comes to. One that says nothing is a failure: an empty
/// text would be taken for an answer.
pub open spec fn report_of(task: TaskModel, report: Result<Seq<char>, Seq<char>>) -> Result<
    ToolOutcomeModel,
    ToolErrorModel,
> {
    match report {
        Ok(report) => if trim_of(report).len() == 0 {
            Err(
                ToolErrorModel::Recoverable(
                    "the "@ + task.agent.name + " subagent returned nothing"@,
                ),
            )
        } else {
            Ok(
                ToolOutcomeModel {
                    title: task.title,
                    output: report,
                    metadata: Some(task_metadata(task.agent)),
                },
            )
        },
        Err(error) => Err(
            ToolErrorModel::Recoverable("the "@ + task.agent.name + " subagent failed: "@ + error),
        ),
    }
}

/// The arguments the tool takes, as a JSON schema.
pub open spec fn schema_of(agents: Seq<AgentModel>) -> Seq<char> {
    "{\"additionalProperties\":false,\"properties\":{\"agent\":{\"description\":\"Which subagent to run.\",\"enum\":["@
        + json_strings(names_of(agents))
        + "],\"type\":\"string\"},\"description\":{\"description\":\"3-5 words naming the task, shown to the user.\",\"type\":\"string\"},\"prompt\":{\"description\":\"Self-contained instructions, including what to report back.\",\"type\":\"string\"}},\"required\":[\"agent\",\"prompt\"],\"type\":\"object\"}"@
}

/// A text as the result of a call that cannot be run.
fn recoverable(text: String) -> (r: ToolError)
    ensures
        r.deep_view() == ToolErrorModel::Recoverable(text@),
{
    ToolError::Recoverable(text)
}

proof fn lemma_agent_at(agents: Seq<AgentModel>, name: Seq<char>, n: int)
    requires
        0 <= n <= agents.len(),
        n < agents.len() ==> agents[n].name == name,
        forall|k: int| 0 <= k < n ==> (#[trigger] agents[k]).name != name,
    ensures
        agent_at(agents, name) == n,
    decreases agents.len(),
{
    if agents.len() > 0 && agents[0].name != name {
        let rest = agents.drop_first();
        assert forall|k: int| 0 <= k < n - 1 implies (#[trigger] rest[k]).name != name by {
            assert(rest[k] == agents[k + 1]);
        }
        if n < agents.len() {
            assert(rest[n - 1] == agents[n]);
        }
        lemma_agent_at(rest, name, n - 1);
    }
}

impl TaskTool {
    /// A tool over those of `agents` that can be delegated to.
    pub fn new(agents: Vec<AgentDefinition>) -> (r: Self)
        ensures
            r.view_agents() == delegable(agents.deep_view()),
    {
        let ghost all = agents.deep_view();
        let mut rest = agents;
        let mut kept: Vec<AgentDefinition> = Vec::new();
        let ghost mut done: int = 0;
        assert(all.skip(0) =~= all);
        assert(all.take(0) =~= Seq::<AgentModel>::empty());
        assert(kept.deep_view() =~= Seq::<AgentModel>::empty());
        while rest.len() > 0
            invariant
                0 <= done <= all.len(),
                rest.deep_view() == all.skip(done),
                kept.deep_view() == delegable(all.take(done)),
            decreases rest@.len(),
        {
            let ghost before = kept.deep_view();
            let ghost left = rest.deep_view();
            let agent = rest.remove(0);
            assert(left[0] == agent.deep_view());
            assert(left.drop_first() =~= rest.deep_view());
            assert(all.skip(done).drop_first() =~= all.skip(done + 1));
            assert(all.take(done + 1).drop_last() =~= all.take(done));
            assert(all.take(done + 1).last() == agent.deep_view());
            if agent.is_offered() && !agent.can_delegate() {
                kept.push(agent);
                assert(kept.deep_view() =~= before.push(agent.deep_view()));
            }
            proof {
                done = done + 1;
            }
        }
        assert(all.take(done) =~= all);
        let description = TaskTool::describe(&kept);
        TaskTool { agents: kept, description }
    }

    /// The agents of the tool.
    pub closed spec fn view_agents(self) -> Seq<AgentModel> {
        self.agents.deep_view()
    }

    /// The description is that of the agents.
    #[verifier::type_invariant]
    spec fn described(self) -> bool {
        self.description@ == roster_head() + roster(self.view_agents()) + roster_tail()
    }

    /// The tool's description, made of the agents there are: a fixed one could not
    /// say which specialists exist.
    fn describe(agents: &Vec<AgentDefinition>) -> (r: String)
        ensures
            r@ == roster_head() + roster(agents.deep_view()) + roster_tail(),
    {
        let ghost all = agents.deep_view();
        let mut out = "Delegates a task to a specialised subagent running in its own context.\n\nUse this when the *process* of a task would fill your context with output you do not need to keep — a broad search, a test run, a review. What comes back is the subagent's report, not its transcript.\n\nAvailable agents:\n".to_owned();
        let mut i: usize = 0;
        assert(out@ + roster(all.take(0)) =~= out@);
        while i < agents.len()
            invariant
                i <= agents@.len(),
                all == agents.deep_view(),
                out@ == roster_head() + roster(all.take(i as int)),
            decreases agents@.len() - i,
        {
            assert(all.take(i + 1).drop_last() =~= all.take(i as int));
            assert(all.take(i + 1).last() == agents@[i as int].deep_view());
            let ghost before = out@;
            out.push_str(&agents[i].manifest_entry());
            out.push_str("\n");
            assert(out@ =~= roster_head() + roster(all.take(i + 1)));
            i += 1;
        }
        assert(all.take(i as int) =~= all);
        out.push_str("\nUsage:\n- Launch several in one message when the work is independent; they run concurrently.\n- Each invocation is stateless and one-shot. The subagent cannot ask you anything, so `prompt` must be self-contained and must say exactly what to report back.\n- Say whether you want investigation or changes — the subagent does not know what the user asked for.\n- The result is not shown to the user. Summarise anything they should see.\n- Do not delegate work you can do in one or two tool calls; the round trip costs more than it saves.\n");
        out
    }

    /// The agents that can be delegated to.
    pub fn agents(&self) -> (r: &Vec<AgentDefinition>)
        ensures
            r.deep_view() == self.view_agents(),
    {
        &self.agents
    }

    pub fn name(&self) -> (r: &'static str)
        ensures
            r@ == "task"@,
    {
        "task"
    }

    /// What the model reads of the tool.
    pub fn description(&self) -> (r: &str)
        ensures
            r@ == roster_head() + roster(self.view_agents()) + roster_tail(),
    {
        proof {
            use_type_invariant(self);
        }
        &self.description
    }

    fn names(&self) -> (r: Vec<String>)
        ensures
            r.deep_view() == names_of(self.view_agents()),
    {
        let ghost all = self.view_agents();
        let mut names: Vec<String> = Vec::new();
        let mut i: usize = 0;
        while i < self.agents.len()
            invariant
                i <= self.agents@.len(),
                all == self.agents.deep_view(),
                names.deep_view() == names_of(all).take(i as int),
            decreases self.agents@.len() - i,
        {
            let ghost before = names.deep_view();
            names.push(self.agents[i].name.clone());
            assert(names.deep_view() =~= before.push(all[i as int].name));
            assert(names.deep_view() =~= names_of(all).take(i + 1));
            i += 1;
        }
        assert(names_of(all).take(i as int) =~= names_of(all));
        names
    }

    /// The arguments the tool takes, as a JSON schema. The agents are enumerated: a
    /// made-up name is a wasted round trip.
    pub fn input_schema(&self) -> (r: String)
        ensures
            r@ == schema_of(self.view_agents()),
    {
        let mut out = "{\"additionalProperties\":false,\"properties\":{\"agent\":{\"description\":\"Which subagent to run.\",\"enum\":[".to_owned();
        out.push_str(&json::strings(&self.names()));
        out.push_str("],\"type\":\"string\"},\"description\":{\"description\":\"3-5 words naming the task, shown to the user.\",\"type\":\"string\"},\"prompt\":{\"description\":\"Self-contained instructions, including what to report back.\",\"type\":\"string\"}},\"required\":[\"agent\",\"prompt\"],\"type\":\"object\"}");
        out
    }

    /// What a call needs: nothing. The subagent's own calls are authorized one by
    /// one, against the same policy.
    pub fn required_permissions(&self, _input: &str) -> (r: Vec<String>)
        ensures
            r@.len() == 0,
    {
        Vec::new()
    }

    /// Whether the tool may change anything: it depends on the agent, so it may.
    pub fn is_mutating(&self) -> (r: bool)
        ensures
            r,
    {
        true
    }

    /// Makes a task of a call's arguments, as read or with what is wrong with them.
    pub fn prepare(&self, input: Result<TaskInput, String>) -> (r: Result<Task, ToolError>)
        ensures
            match r {
                Ok(task) => task_of(
                    self.view_agents(),
                    match input {
                        Ok(input) => Ok(input.deep_view()),
                        Err(error) => Err(error@),
                    },
                ) == Ok::<TaskModel, ToolErrorModel>(task.deep_view()),
                Err(error) => task_of(
                    self.view_agents(),
                    match input {
                        Ok(input) => Ok(input.deep_view()),
                        Err(error) => Err(error@),
                    },
                ) == Err::<TaskModel, ToolErrorModel>(error.deep_view()),
            },
    {
        let ghost all = self.view_agents();
        let input = match input {
            Ok(input) => input,
            Err(error) => {
                let mut text = "invalid arguments: ".to_owned();
                text.push_str(&error);
                return Err(recoverable(text));
            },
        };
        let mut at: usize = 0;
        while at < self.agents.len() && !same(&self.agents[at].name, &input.agent)
            invariant
                at <= self.agents@.len(),
                all == self.agents.deep_view(),
                forall|k: int| 0 <= k < at ==> (#[trigger] all[k]).name != input.agent@,
            decreases self.agents@.len() - at,
        {
            assert(all[at as int] == self.agents@[at as int].deep_view());
            at += 1;
        }
        proof {
            if at < self.agents@.len() {
                assert(all[at as int] == self.agents@[at as int].deep_view());
            }
            lemma_agent_at(all, input.agent@, at as int);
        }
        if at >= self.agents.len() {
            let mut text = "no agent named ".to_owned();
            text.push_str(&quoted(&input.agent));
            text.push_str(". Available: ");
            text.push_str(&join(&self.names(), ", "));
            return Err(recoverable(text));
        }
        if trim(&input.prompt).as_str().is_empty() {
            return Err(
                recoverable(
                    "prompt must not be empty — the subagent cannot ask what you meant".to_owned(),
                ),
            );
        }
        let agent = self.agents[at].clone();
        let title = match input.description {
            Some(title) => title,
            None => {
                let mut title = agent.name.clone();
                title.push_str(" subagent");
                title
            },
        };
        Ok(Task { agent, prompt: input.prompt, title })
    }

    /// What a subagent's report comes to.
    pub fn report(task: &Task, report: Result<String, String>) -> (r: Result<
        ToolOutcome,
        ToolError,
    >)
        ensures
            match r {
                Ok(outcome) => report_of(
                    task.deep_view(),
                    match report {
                        Ok(text) => Ok(text@),
                        Err(error) => Err(error@),
                    },
                ) == Ok::<ToolOutcomeModel, ToolErrorModel>(outcome.deep_view()),
                Err(error) => report_of(
                    task.deep_view(),
                    match report {
                        Ok(text) => Ok(text@),
                        Err(error) => Err(error@),
                    },
                ) == Err::<ToolOutcomeModel, ToolErrorModel>(error.deep_view()),
            },
    {
        let mut text = "the ".to_owned();
        text.push_str(&task.agent.name);
        match report {
            Ok(report) => {
                if trim(&report).as_str().is_empty() {
                    text.push_str(" subagent returned nothing");
                    return Err(recoverable(text));
                }
                let mut metadata = "{\"agent\":".to_owned();
                metadata.push_str(&json::string(&task.agent.name));
                metadata.push_str(",\"scope\":");
                metadata.push_str(&json::string(task.agent.scope.label()));
                metadata.push_str("}");
                Ok(
                    ToolOutcome {
                        title: task.title.clone(),
                        output: report,
                        metadata: Some(metadata),
                    },
                )
            },
            Err(error) => {
                text.push_str(" subagent failed: ");
                text.push_str(&error);
                Err(recoverable(text))
            },
        }
    }
}

/// Delegation never recurses: every agent of the tool is a subagent, so none of
/// them is hidden and none of them can delegate.
pub proof fn law_only_subagents_are_offered(agents: Seq<AgentModel>, i: int)
    requires
        0 <= i < delegable(agents).len(),
    ensures
        delegable(agents)[i].frontmatter.mode == AgentMode::Subagent,
        agents.contains(delegable(agents)[i]),
    decreases agents.len(),
{
    if agents.len() > 0 {
        let rest = agents.drop_last();
        if i < delegable(rest).len() {
            law_only_subagents_are_offered(rest, i);
            let k = choose|k: int| 0 <= k < rest.len() && rest[k] == delegable(rest)[i];
            assert(agents[k] == delegable(agents)[i]);
        } else {
            assert(delegable(agents)[i] == agents[agents.len() - 1]);
        }
    }
}

/// Every subagent is offered.
pub proof fn law_every_subagent_is_offered(agents: Seq<AgentModel>, k: int)
    requires
        0 <= k < agents.len(),
        agents[k].frontmatter.mode == AgentMode::Subagent,
    ensures
        delegable(agents).contains(agents[k]),
    decreases agents.len(),
{
    let rest = agents.drop_last();
    if k < rest.len() {
        law_every_subagent_is_offered(rest, k);
        let i = choose|i: int| 0 <= i < delegable(rest).len() && delegable(rest)[i] == rest[k];
        assert(delegable(agents)[i] == agents[k]);
    } else {
        assert(delegable(agents).last() == agents[k]);
    }
}

/// Every agent is on the roster, in its order.
pub proof fn law_every_agent_is_on_the_roster(
    a: Seq<AgentModel>,
    b: Seq<AgentModel>,
    agent: AgentModel,
)
    ensures
        roster(a + b) == roster(a) + roster(b),
        roster(seq![agent]) == manifest_of(agent) + "\n"@,
        roster(Seq::empty()) == Seq::<char>::empty(),
        delegable(a + b) == delegable(a) + delegable(b),
        delegable(seq![agent]) == (if agent.frontmatter.mode == AgentMode::Subagent {
            seq![agent]
        } else {
            Seq::empty()
        }),
{
    lemma_roster(a, b);
    reveal_with_fuel(roster, 2);
    reveal_with_fuel(delegable, 2);
    let one = seq![agent];
    assert(one.drop_last() =~= Seq::<AgentModel>::empty());
    assert(one.last() == agent);
    assert(Seq::<char>::empty() + manifest_of(agent) =~= manifest_of(agent));
    assert(Seq::<AgentModel>::empty().push(agent) =~= one);
    assert(delegable(one) =~= (if agent.frontmatter.mode == AgentMode::Subagent {
        one
    } else {
        Seq::empty()
    }));
}

proof fn lemma_roster(a: Seq<AgentModel>, b: Seq<AgentModel>)
    ensures
        roster(a + b) == roster(a) + roster(b),
        delegable(a + b) == delegable(a) + delegable(b),
    decreases b.len(),
{
    let all = a + b;
    if b.len() == 0 {
        assert(all =~= a);
        assert(roster(a) + roster(b) =~= roster(a));
        assert(delegable(a) + delegable(b) =~= delegable(a));
    } else {
        let rest = b.drop_last();
        lemma_roster(a, rest);
        assert(all.drop_last() =~= a + rest);
        assert(all.last() == b.last());
        assert(roster(a) + roster(rest) + manifest_of(b.last()) + "\n"@ =~= roster(a) + (roster(rest)
            + manifest_of(b.last()) + "\n"@));
        assert((delegable(a) + delegable(rest)).push(b.last()) =~= delegable(a) + delegable(
            rest,
        ).push(b.last()));
    }
}

/// A task goes to the first agent of the name that was asked for, with the prompt as it
/// was given, and under the title that was given or else one made of the agent's name.
/// It is refused where no agent has the name, or where the prompt says nothing.
pub proof fn law_a_task_goes_to_the_named_agent(
    agents: Seq<AgentModel>,
    input: TaskInputModel,
    i: int,
)
    requires
        0 <= i < agents.len(),
        agents[i].name == input.agent,
        forall|j: int| 0 <= j < i ==> (#[trigger] agents[j]).name != input.agent,
    ensures
        match task_of(agents, Ok(input)) {
            Ok(task) => {
                &&& trim_of(input.prompt).len() > 0
                &&& task.agent == agents[i]
                &&& task.prompt == input.prompt
                &&& input.description matches Some(title) ==> task.title == title
                &&& input.description is None ==> task.title == input.agent + " subagent"@
            },
            Err(error) => trim_of(input.prompt).len() == 0 && error is Recoverable,
        },
{
    lemma_agent_at(agents, input.agent, i);
}

/// A name that no agent has is refused, with the names that there are; so are arguments
/// that cannot be read, with what is wrong with them.
pub proof fn law_an_unknown_agent_is_refused(
    agents: Seq<AgentModel>,
    input: TaskInputModel,
    fault: Seq<char>,
)
    requires
        forall|j: int| 0 <= j < agents.len() ==> (#[trigger] agents[j]).name != input.agent,
    ensures
        task_of(agents, Ok(input)) == Err::<TaskModel, ToolErrorModel>(
            ToolErrorModel::Recoverable(
                "no agent named "@ + quoted_of(input.agent) + ". Available: "@ + join_of(
                    agents.map_values(|agent: AgentModel| agent.name),
                    ", "@,
                ),
            ),
        ),
        task_of(agents, Err(fault)) == Err::<TaskModel, ToolErrorModel>(
            ToolErrorModel::Recoverable("invalid arguments: "@ + fault),
        ),
{
    lemma_agent_at(agents, input.agent, agents.len() as int);
    assert(names_of(agents) =~= agents.map_values(|agent: AgentModel| agent.name));
}

/// What a subagent reports is handed on word for word, under the task's title; one that
/// says nothing, or fails, is reported as such.
pub proof fn law_a_report_is_handed_on(task: TaskModel, report: Seq<char>, fault: Seq<char>)
    ensures
        match report_of(task, Ok(report)) {
            Ok(outcome) => {
                &&& trim_of(report).len() > 0
                &&& outcome.output == report
                &&& outcome.title == task.title
                &&& outcome.metadata is Some
            },
            Err(error) => {
                &&& trim_of(report).len() == 0
                &&& error == ToolErrorModel::Recoverable(
                    "the "@ + task.agent.name + " subagent returned nothing"@,
                )
            },
        },
        report_of(task, Err(fault)) == Err::<ToolOutcomeModel, ToolErrorModel>(
            ToolErrorModel::Recoverable("the "@ + task.agent.name + " subagent failed: "@ + fault),
        ),
{
}

/// The tool offers every agent by its name, in its order.
pub proof fn law_every_agent_can_be_named(agents: Seq<AgentModel>)
    ensures
        schema_of(agents)
            == "{\"additionalProperties\":false,\"properties\":{\"agent\":{\"description\":\"Which subagent to run.\",\"enum\":["@
            + json_strings(agents.map_values(|agent: AgentModel| agent.name))
            + "],\"type\":\"string\"},\"description\":{\"description\":\"3-5 words naming the task, shown to the user.\",\"type\":\"string\"},\"prompt\":{\"description\":\"Self-contained instructions, including what to report back.\",\"type\":\"string\"}},\"required\":[\"agent\",\"prompt\"],\"type\":\"object\"}"@,
{
    assert(names_of(agents) =~= agents.map_values(|agent: AgentModel| agent.name));
}

} // verus!
