//! What holds of configuration as a whole.

use vstd::prelude::*;

use crate::config::agent::{
    agents_by_name, all_agents, builtins_of, critic_agent, failed_of, loaded_of, plan_agent,
    read_only_tools, research_agent, AgentDefinition, AgentError, AgentModel,
};
use crate::config::edit::{
    ascii_entry, catalogue_of, current_of, display_of, file_at, if_any,
    mode_entry, model_entry, sandbox_entry, sandbox_network_entry, sets_at, setter_from,
    show_reasoning_entry, target_of, theme_entry, thinking_entry,
};
use crate::config::roots_of;
use crate::config::settings::{
    layer_errors, merged, no_settings, settings_of, thinking_label, Layer, SettingsModel,
    Thinking,
};
use crate::engine::agent::permits;
use crate::paths::joined;
use crate::permission::mode::label_of;
use crate::permission::PermissionMode;

verus! {

/// Nothing set is neutral: merged with anything, on either side, it changes nothing.
pub proof fn law_no_settings_are_neutral(s: SettingsModel)
    ensures
        merged(no_settings(), s) == s,
        merged(s, no_settings()) == s,
{
    assert(merged(no_settings(), s).permissions.allow =~= s.permissions.allow);
    assert(merged(no_settings(), s).permissions.ask =~= s.permissions.ask);
    assert(merged(no_settings(), s).permissions.deny =~= s.permissions.deny);
    assert(merged(s, no_settings()).permissions.allow =~= s.permissions.allow);
    assert(merged(s, no_settings()).permissions.ask =~= s.permissions.ask);
    assert(merged(s, no_settings()).permissions.deny =~= s.permissions.deny);
}

/// Layers merge the same however they are grouped; only their order counts.
pub proof fn law_merging_associates(a: SettingsModel, b: SettingsModel, c: SettingsModel)
    ensures
        merged(merged(a, b), c) == merged(a, merged(b, c)),
{
    let left = merged(merged(a, b), c).permissions;
    let right = merged(a, merged(b, c)).permissions;
    assert(left.allow =~= right.allow);
    assert(left.ask =~= right.ask);
    assert(left.deny =~= right.deny);
}

/// Field by field, the upper layer wins where it says anything and the lower stands
/// where it does not.
pub proof fn law_the_upper_layer_wins(under: SettingsModel, upper: SettingsModel)
    ensures
        ({
            let m = merged(under, upper);
            &&& m.model == if upper.model is Some {
                upper.model
            } else {
                under.model
            }
            &&& m.faster_model == if upper.faster_model is Some {
                upper.faster_model
            } else {
                under.faster_model
            }
            &&& m.mode == if upper.mode is Some {
                upper.mode
            } else {
                under.mode
            }
            &&& m.thinking == if upper.thinking is Some {
                upper.thinking
            } else {
                under.thinking
            }
            &&& m.show_reasoning == if upper.show_reasoning is Some {
                upper.show_reasoning
            } else {
                under.show_reasoning
            }
            &&& m.sandbox == if upper.sandbox is Some {
                upper.sandbox
            } else {
                under.sandbox
            }
            &&& m.sandbox_network == if upper.sandbox_network is Some {
                upper.sandbox_network
            } else {
                under.sandbox_network
            }
            &&& m.ascii == if upper.ascii is Some {
                upper.ascii
            } else {
                under.ascii
            }
            &&& m.theme == if upper.theme is Some {
                upper.theme
            } else {
                under.theme
            }
        }),
{
}

/// Rules accumulate rather than replace: a layer cannot drop a rule of another.
pub proof fn law_rules_accumulate(under: SettingsModel, upper: SettingsModel, rule: Seq<char>)
    ensures
        under.permissions.deny.contains(rule) || upper.permissions.deny.contains(rule)
            <==> merged(under, upper).permissions.deny.contains(rule),
        under.permissions.ask.contains(rule) || upper.permissions.ask.contains(rule)
            <==> merged(under, upper).permissions.ask.contains(rule),
        under.permissions.allow.contains(rule) || upper.permissions.allow.contains(rule)
            <==> merged(under, upper).permissions.allow.contains(rule),
{
    lemma_contains_either(under.permissions.deny, upper.permissions.deny, rule);
    lemma_contains_either(under.permissions.ask, upper.permissions.ask, rule);
    lemma_contains_either(under.permissions.allow, upper.permissions.allow, rule);
}

proof fn lemma_contains_either(a: Seq<Seq<char>>, b: Seq<Seq<char>>, x: Seq<char>)
    ensures
        a.contains(x) || b.contains(x) <==> (a + b).contains(x),
{
    if a.contains(x) {
        let i = a.index_of(x);
        assert((a + b)[i] == x);
    }
    if b.contains(x) {
        let i = b.index_of(x);
        assert((a + b)[a.len() + i] == x);
    }
    if (a + b).contains(x) {
        let i = (a + b).index_of(x);
        if i < a.len() {
            assert(a[i] == x);
        } else {
            assert(b[i - a.len()] == x);
        }
    }
}

proof fn lemma_layers_apart(before: Seq<Layer>, between: Layer, after: Seq<Layer>)
    ensures
        !(between is Loaded) ==> settings_of(before.push(between) + after) == settings_of(
            before + after,
        ),
        layer_errors(before.push(between) + after) == layer_errors(before.push(between))
            + layer_errors(after),
        layer_errors(before + after) == layer_errors(before) + layer_errors(after),
    decreases after.len(),
{
    let whole = before.push(between) + after;
    let others = before + after;
    if after.len() == 0 {
        assert(whole =~= before.push(between));
        assert(others =~= before);
        assert(before.push(between).drop_last() =~= before);
        assert(layer_errors(before.push(between)) + layer_errors(after) =~= layer_errors(
            before.push(between),
        ));
        assert(layer_errors(before) + layer_errors(after) =~= layer_errors(before));
    } else {
        lemma_layers_apart(before, between, after.drop_last());
        assert(whole.drop_last() =~= before.push(between) + after.drop_last());
        assert(others.drop_last() =~= before + after.drop_last());
        assert(layer_errors(whole) =~= layer_errors(before.push(between)) + layer_errors(after));
        assert(layer_errors(others) =~= layer_errors(before) + layer_errors(after));
    }
}

/// A file that cannot be used is reported and skipped, wherever it stands: the other
/// layers come out as though it were not there.
pub proof fn law_a_broken_layer_is_skipped(before: Seq<Layer>, broken: Layer, after: Seq<Layer>)
    requires
        broken is Unreadable || broken is Malformed,
    ensures
        settings_of(before.push(broken) + after) == settings_of(before + after),
        layer_errors(seq![broken]).len() == 1,
        layer_errors(before.push(broken) + after) == layer_errors(before) + layer_errors(
            seq![broken],
        ) + layer_errors(after),
{
    lemma_layers_apart(before, broken, after);
    assert(before.push(broken).drop_last() =~= before);
    assert(seq![broken].drop_last() =~= Seq::<Layer>::empty());
    reveal_with_fuel(layer_errors, 2);
    assert(layer_errors(before.push(broken)) =~= layer_errors(before) + layer_errors(seq![broken]));
}

/// A file that is not there is no error, and changes nothing.
pub proof fn law_a_missing_layer_is_no_error(before: Seq<Layer>, after: Seq<Layer>)
    ensures
        settings_of(before.push(Layer::Missing) + after) == settings_of(before + after),
        layer_errors(before.push(Layer::Missing) + after) == layer_errors(before + after),
{
    lemma_layers_apart(before, Layer::Missing, after);
    assert(before.push(Layer::Missing).drop_last() =~= before);
}

/// The project's root comes last, so what its file says stands.
pub proof fn law_the_project_comes_last(home: Option<Seq<char>>, workspace: Seq<char>)
    ensures
        roots_of(home, workspace).len() > 0,
        roots_of(home, workspace).last() == joined(workspace, ".octane"@),
{
}

/// A change is written to a file that already sets the key, if any does: the first of
/// them. Otherwise it goes to the most specific root.
pub proof fn law_a_change_stays_where_it_is_set(
    roots: Seq<Seq<char>>,
    texts: Seq<Option<Seq<char>>>,
    key: Seq<char>,
)
    requires
        roots.len() > 0,
    ensures
        (exists|i: int| 0 <= i < roots.len() && #[trigger] sets_at(texts, i, key)) ==> exists|i: int|
            0 <= i < roots.len() && #[trigger] sets_at(texts, i, key) && target_of(
                roots,
                texts,
                key,
            ) == file_at(roots[i]) && forall|k: int| 0 <= k < i ==> !sets_at(texts, k, key),
        (forall|i: int| 0 <= i < roots.len() ==> !#[trigger] sets_at(texts, i, key)) ==> target_of(
            roots,
            texts,
            key,
        ) == file_at(roots.last()),
{
    lemma_setter(roots, texts, key, 0);
}

proof fn lemma_setter(
    roots: Seq<Seq<char>>,
    texts: Seq<Option<Seq<char>>>,
    key: Seq<char>,
    from: int,
)
    requires
        0 <= from <= roots.len(),
    ensures
        match setter_from(roots, texts, key, from) {
            Some(i) => from <= i < roots.len() && sets_at(texts, i, key) && forall|k: int|
                from <= k < i ==> !sets_at(texts, k, key),
            None => forall|k: int| from <= k < roots.len() ==> !sets_at(texts, k, key),
        },
    decreases roots.len() - from,
{
    if from < roots.len() && !sets_at(texts, from, key) {
        lemma_setter(roots, texts, key, from + 1);
    }
}

/// A file replaces what has its name: of the agents found, the last one of a name
/// stands, so a project's file beats the user's and either beats a built-in.
pub proof fn law_the_last_definition_wins(
    found: Seq<Result<AgentDefinition, AgentError>>,
    agent: AgentDefinition,
)
    ensures
        all_agents(found.push(Ok(agent))).dom().contains(agent.name@),
        all_agents(found.push(Ok(agent)))[agent.name@] == agent.deep_view(),
        forall|name: Seq<char>|
            name != agent.name@ && #[trigger] all_agents(found).dom().contains(name)
                ==> all_agents(found.push(Ok(agent))).dom().contains(name) && all_agents(
                found.push(Ok(agent)),
            )[name] == all_agents(found)[name],
{
    assert(found.push(Ok(agent)).drop_last() =~= found);
    let loaded = loaded_of(found);
    assert(loaded.push(agent.deep_view()).drop_last() =~= loaded);
}

/// A malformed agent file is reported, and every other agent is there.
pub proof fn law_a_broken_agent_is_skipped(
    before: Seq<Result<AgentDefinition, AgentError>>,
    error: AgentError,
    after: Seq<Result<AgentDefinition, AgentError>>,
)
    ensures
        all_agents(before.push(Err(error)) + after) == all_agents(before + after),
        failed_of(before.push(Err(error)) + after) == failed_of(before).push(error) + failed_of(
            after,
        ),
{
    lemma_found_apart(before, error, after);
}

proof fn lemma_found_apart(
    before: Seq<Result<AgentDefinition, AgentError>>,
    error: AgentError,
    after: Seq<Result<AgentDefinition, AgentError>>,
)
    ensures
        loaded_of(before.push(Err(error)) + after) == loaded_of(before + after),
        failed_of(before.push(Err(error)) + after) == failed_of(before).push(error) + failed_of(
            after,
        ),
    decreases after.len(),
{
    let broken = before.push(Err(error));
    if after.len() == 0 {
        assert(broken + after =~= broken);
        assert(before + after =~= before);
        assert(broken.drop_last() =~= before);
        assert(failed_of(before).push(error) + failed_of(after) =~= failed_of(before).push(error));
    } else {
        lemma_found_apart(before, error, after.drop_last());
        assert((broken + after).drop_last() =~= broken + after.drop_last());
        assert((before + after).drop_last() =~= before + after.drop_last());
        assert(failed_of(broken + after) =~= failed_of(before).push(error) + failed_of(after));
    }
}

/// Built-in agents are always there, whatever files were found.
pub proof fn law_built_in_agents_are_there(
    found: Seq<Result<AgentDefinition, AgentError>>,
    i: int,
)
    requires
        0 <= i < builtins_of().len(),
    ensures
        all_agents(found).dom().contains(builtins_of()[i].name),
{
    let under = agents_by_name(Map::empty(), builtins_of());
    lemma_named(Map::empty(), builtins_of(), i);
    lemma_names_stay(under, loaded_of(found), builtins_of()[i].name);
}

proof fn lemma_named(under: Map<Seq<char>, AgentModel>, agents: Seq<AgentModel>, i: int)
    requires
        0 <= i < agents.len(),
    ensures
        agents_by_name(under, agents).dom().contains(agents[i].name),
    decreases agents.len(),
{
    if i < agents.len() - 1 {
        assert(agents.drop_last()[i] == agents[i]);
        lemma_named(under, agents.drop_last(), i);
    }
}

proof fn lemma_names_stay(
    under: Map<Seq<char>, AgentModel>,
    agents: Seq<AgentModel>,
    name: Seq<char>,
)
    requires
        under.dom().contains(name),
    ensures
        agents_by_name(under, agents).dom().contains(name),
    decreases agents.len(),
{
    if agents.len() > 0 {
        lemma_names_stay(under, agents.drop_last(), name);
    }
}

/// The agents that are for looking cannot reach a tool that changes anything.
pub proof fn law_readers_cannot_change_anything()
    ensures
        !permits(plan_agent().frontmatter.tools, "write"@),
        !permits(plan_agent().frontmatter.tools, "edit"@),
        !permits(plan_agent().frontmatter.tools, "bash"@),
        research_agent().frontmatter.tools == plan_agent().frontmatter.tools,
        critic_agent().frontmatter.tools == plan_agent().frontmatter.tools,
{
    reveal_strlit("read");
    reveal_strlit("grep");
    reveal_strlit("glob");
    reveal_strlit("list");
    reveal_strlit("write");
    reveal_strlit("edit");
    reveal_strlit("bash");
    let tools = read_only_tools();
    assert("write"@.len() == 5);
    assert("edit"@[0] == 'e');
    assert("bash"@[0] == 'b');
    assert("read"@[0] == 'r' && "read"@.len() == 4);
    assert("grep"@[0] == 'g' && "grep"@.len() == 4);
    assert("glob"@[0] == 'g' && "glob"@.len() == 4);
    assert("list"@[0] == 'l' && "list"@.len() == 4);
    assert forall|i: int| 0 <= i < tools.len() implies tools[i] != "write"@ && tools[i] != "edit"@
        && tools[i] != "bash"@ by {
        assert(tools[i] == "read"@ || tools[i] == "grep"@ || tools[i] == "glob"@ || tools[i]
            == "list"@);
    }
}

/// Settings that hold one value under one key.
pub open spec fn holds(s: SettingsModel, key: Seq<char>, value: Seq<char>) -> bool {
    current_of(s, key) == Some(value)
}

/// A picker cannot offer an invalid value: every value that the catalogue offers is
/// one that some settings hold under that key, spelled the same.
pub proof fn law_every_choice_is_a_value(
    models: Seq<Seq<char>>,
    themes: Seq<Seq<char>>,
    i: int,
    k: int,
)
    requires
        0 <= i < catalogue_of(models, themes).len(),
        0 <= k < catalogue_of(models, themes)[i].choices.len(),
    ensures
        ({
            let entry = catalogue_of(models, themes)[i];
            exists|s: SettingsModel| #[trigger]
                holds(s, entry.key, display_of(entry.choices[k].value))
        }),
{
    let entry = catalogue_of(models, themes)[i];
    let value = display_of(entry.choices[k].value);
    let none = no_settings();
    lemma_catalogue(models, themes, i);
    lemma_keys_differ();
    if entry == model_entry(models) {
        assert(holds(SettingsModel { model: Some(value), ..none }, entry.key, value));
    } else if entry == mode_entry() {
        lemma_mode_choice(k);
        let mode = mode_choice(k);
        assert(holds(SettingsModel { mode: Some(mode), ..none }, entry.key, value));
    } else if entry == thinking_entry() {
        lemma_thinking_choice(k);
        let thinking = thinking_choice(k);
        assert(holds(SettingsModel { thinking: Some(thinking), ..none }, entry.key, value));
    } else if entry == theme_entry(themes) {
        assert(holds(SettingsModel { theme: Some(value), ..none }, entry.key, value));
    } else {
        let on = entry.choices[k].value->Bool_0;
        if entry == show_reasoning_entry() {
            assert(holds(SettingsModel { show_reasoning: Some(on), ..none }, entry.key, value));
        } else if entry == ascii_entry() {
            assert(holds(SettingsModel { ascii: Some(on), ..none }, entry.key, value));
        } else if entry == sandbox_entry() {
            assert(holds(SettingsModel { sandbox: Some(on), ..none }, entry.key, value));
        } else {
            assert(holds(SettingsModel { sandbox_network: Some(on), ..none }, entry.key, value));
        }
    }
}

proof fn lemma_catalogue(models: Seq<Seq<char>>, themes: Seq<Seq<char>>, i: int)
    requires
        0 <= i < catalogue_of(models, themes).len(),
    ensures
        ({
            let entry = catalogue_of(models, themes)[i];
            ||| entry == model_entry(models)
            ||| entry == mode_entry()
            ||| entry == thinking_entry()
            ||| entry == show_reasoning_entry()
            ||| entry == ascii_entry()
            ||| entry == theme_entry(themes)
            ||| entry == sandbox_entry()
            ||| entry == sandbox_network_entry()
        }),
{
    let a = if_any(models, model_entry(models));
    let b = seq![mode_entry(), thinking_entry(), show_reasoning_entry(), ascii_entry()];
    let c = if_any(themes, theme_entry(themes));
    let d = seq![sandbox_entry(), sandbox_network_entry()];
    assert(catalogue_of(models, themes) =~= a + b + c + d);
    if i < a.len() {
        assert(catalogue_of(models, themes)[i] == a[i]);
    } else if i < a.len() + b.len() {
        assert(catalogue_of(models, themes)[i] == b[i - a.len()]);
    } else if i < a.len() + b.len() + c.len() {
        assert(catalogue_of(models, themes)[i] == c[i - a.len() - b.len()]);
    } else {
        assert(catalogue_of(models, themes)[i] == d[i - a.len() - b.len() - c.len()]);
    }
}

proof fn lemma_keys_differ()
    ensures
        "mode"@ != "model"@,
        "thinking"@ != "model"@ && "thinking"@ != "mode"@,
        "show-reasoning"@ != "model"@ && "show-reasoning"@ != "mode"@ && "show-reasoning"@
            != "thinking"@,
        "ascii"@ != "model"@ && "ascii"@ != "mode"@ && "ascii"@ != "thinking"@ && "ascii"@
            != "show-reasoning"@,
        "theme"@ != "model"@ && "theme"@ != "mode"@ && "theme"@ != "thinking"@ && "theme"@
            != "show-reasoning"@ && "theme"@ != "ascii"@,
        "sandbox"@ != "model"@ && "sandbox"@ != "mode"@ && "sandbox"@ != "thinking"@ && "sandbox"@
            != "show-reasoning"@ && "sandbox"@ != "ascii"@ && "sandbox"@ != "theme"@,
        "sandbox-network"@ != "model"@ && "sandbox-network"@ != "mode"@ && "sandbox-network"@
            != "thinking"@ && "sandbox-network"@ != "show-reasoning"@ && "sandbox-network"@
            != "ascii"@ && "sandbox-network"@ != "theme"@ && "sandbox-network"@ != "sandbox"@,
{
    reveal_strlit("model");
    reveal_strlit("mode");
    reveal_strlit("thinking");
    reveal_strlit("show-reasoning");
    reveal_strlit("ascii");
    reveal_strlit("theme");
    reveal_strlit("sandbox");
    reveal_strlit("sandbox-network");
    assert("model"@.len() == 5 && "mode"@.len() == 4 && "thinking"@.len() == 8);
    assert("show-reasoning"@.len() == 14 && "ascii"@.len() == 5 && "theme"@.len() == 5);
    assert("sandbox"@.len() == 7 && "sandbox-network"@.len() == 15);
    assert("model"@[0] == 'm');
    assert("ascii"@[0] == 'a');
    assert("theme"@[0] == 't');
}

spec fn mode_choice(k: int) -> PermissionMode {
    if k == 0 {
        PermissionMode::Default
    } else if k == 1 {
        PermissionMode::Plan
    } else if k == 2 {
        PermissionMode::AcceptEdits
    } else {
        PermissionMode::Bypass
    }
}

proof fn lemma_mode_choice(k: int)
    requires
        0 <= k < mode_entry().choices.len(),
    ensures
        display_of(mode_entry().choices[k].value) == label_of(mode_choice(k)),
{
}

spec fn thinking_choice(k: int) -> Thinking {
    if k == 0 {
        Thinking::Auto
    } else if k == 1 {
        Thinking::Off
    } else if k == 2 {
        Thinking::Low
    } else if k == 3 {
        Thinking::Medium
    } else {
        Thinking::High
    }
}

proof fn lemma_thinking_choice(k: int)
    requires
        0 <= k < thinking_entry().choices.len(),
    ensures
        display_of(thinking_entry().choices[k].value) == thinking_label(thinking_choice(k)),
{
}

/// Rules are not among the settings that one keystroke changes: a broad grant should
/// cost a considered edit of a file.
pub proof fn law_rules_are_not_offered(models: Seq<Seq<char>>, themes: Seq<Seq<char>>, i: int)
    requires
        0 <= i < catalogue_of(models, themes).len(),
    ensures
        catalogue_of(models, themes)[i].key != "permissions"@,
{
    lemma_catalogue(models, themes, i);
    reveal_strlit("permissions");
    reveal_strlit("model");
    reveal_strlit("mode");
    reveal_strlit("thinking");
    reveal_strlit("show-reasoning");
    reveal_strlit("ascii");
    reveal_strlit("theme");
    reveal_strlit("sandbox");
    reveal_strlit("sandbox-network");
    assert("permissions"@.len() == 11);
    assert("model"@.len() == 5 && "mode"@.len() == 4 && "thinking"@.len() == 8);
    assert("show-reasoning"@.len() == 14 && "ascii"@.len() == 5 && "theme"@.len() == 5);
    assert("sandbox"@.len() == 7 && "sandbox-network"@.len() == 15);
}

} // verus!
