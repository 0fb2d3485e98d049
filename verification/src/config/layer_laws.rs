//! What holds of the layers that settings and agents come from, and of what a setting shows.

use vstd::prelude::*;

use crate::config::agent::{
    agent_name, agents_by_name, all_agents, builtins_of, definition_parts, failed_of, loaded_of,
    AgentDefinition, AgentError, AgentModel,
};
use crate::config::edit::{
    catalogue_of, choice_of, current_of, display_of, effective_of, ChoiceModel, EditableModel,
    ValueModel,
};
use crate::config::laws::{law_merging_associates, law_no_settings_are_neutral};
use crate::config::roots_of;
use crate::config::settings::{
    layer_errors, merged, no_settings, settings_of, Layer, SettingsError, SettingsModel, Thinking,
};
use crate::paths::{components_of, joined};
use crate::permission::mode::label_of;
use crate::permission::PermissionMode;
use crate::text::{begins, decimal_of, find_text_of, trim_of};
use crate::text_laws::{
    is_free_of, law_a_name_is_stem_and_extension, law_every_one_of_a_character_is_dropped,
    lemma_find_text_unique,
};

verus! {

/// Layers lie one upon another: what two runs of them say together is what the one says
/// with the other upon it, and a file by itself says what it holds. The files that cannot
/// be used are reported in their order, each with its path and the reason.
pub proof fn law_layers_lie_upon_each_other(a: Seq<Layer>, b: Seq<Layer>, layer: Layer)
    ensures
        settings_of(a + b) == merged(settings_of(a), settings_of(b)),
        layer_errors(a + b) == layer_errors(a) + layer_errors(b),
        settings_of(seq![layer]) == (match layer {
            Layer::Loaded(settings) => settings.deep_view(),
            _ => no_settings(),
        }),
        layer_errors(seq![layer]) == (match layer {
            Layer::Unreadable { path, source } => seq![SettingsError::Io { path, source }],
            Layer::Malformed { path, source } => seq![SettingsError::Parse { path, source }],
            _ => Seq::empty(),
        }),
{
    lemma_layers(a, b);
    reveal_with_fuel(settings_of, 2);
    reveal_with_fuel(layer_errors, 2);
    let one = seq![layer];
    assert(one.drop_last() =~= Seq::<Layer>::empty());
    assert(one.last() == layer);
    if let Layer::Loaded(settings) = layer {
        law_no_settings_are_neutral(settings.deep_view());
    }
    assert(layer_errors(one) =~= (match layer {
        Layer::Unreadable { path, source } => seq![SettingsError::Io { path, source }],
        Layer::Malformed { path, source } => seq![SettingsError::Parse { path, source }],
        _ => Seq::empty(),
    }));
}

proof fn lemma_layers(a: Seq<Layer>, b: Seq<Layer>)
    ensures
        settings_of(a + b) == merged(settings_of(a), settings_of(b)),
        layer_errors(a + b) == layer_errors(a) + layer_errors(b),
    decreases b.len(),
{
    let all = a + b;
    if b.len() == 0 {
        assert(all =~= a);
        law_no_settings_are_neutral(settings_of(a));
        assert(layer_errors(a) + layer_errors(b) =~= layer_errors(a));
    } else {
        let rest = b.drop_last();
        lemma_layers(a, rest);
        assert(all.drop_last() =~= a + rest);
        assert(all.last() == b.last());
        if let Layer::Loaded(settings) = b.last() {
            law_merging_associates(settings_of(a), settings_of(rest), settings.deep_view());
        }
        assert(layer_errors(all) =~= layer_errors(a) + layer_errors(b));
    }
}

/// Rules keep their order, the lower layer's before the upper's.
pub proof fn law_rules_keep_their_order(under: SettingsModel, upper: SettingsModel)
    ensures
        ({
            let all = merged(under, upper).permissions;
            &&& all.allow == under.permissions.allow + upper.permissions.allow
            &&& all.ask == under.permissions.ask + upper.permissions.ask
            &&& all.deny == under.permissions.deny + upper.permissions.deny
        }),
{
}

/// There are two roots, the home directory's before the workspace's, or the workspace's
/// alone.
pub proof fn law_the_home_comes_first(home: Seq<char>, workspace: Seq<char>)
    ensures
        roots_of(Some(home), workspace) == seq![
            joined(home, ".octane"@),
            joined(workspace, ".octane"@),
        ],
        roots_of(None, workspace) == seq![joined(workspace, ".octane"@)],
{
}

/// What a setting shows is what the upper layer says of it, or else what the lower does.
pub proof fn law_a_setting_shows_the_upper_layer(
    under: SettingsModel,
    upper: SettingsModel,
    key: Seq<char>,
)
    ensures
        current_of(merged(under, upper), key) == (if current_of(upper, key) is Some {
            current_of(upper, key)
        } else {
            current_of(under, key)
        }),
{
}

/// Each setting shows its own value and no other's, in the words of the settings file.
pub proof fn law_each_setting_shows_its_own(
    text: Seq<char>,
    mode: PermissionMode,
    budget: u32,
    flag: bool,
)
    ensures
        current_of(SettingsModel { model: Some(text), ..no_settings() }, "model"@) == Some(text),
        current_of(SettingsModel { theme: Some(text), ..no_settings() }, "theme"@) == Some(text),
        current_of(SettingsModel { mode: Some(mode), ..no_settings() }, "mode"@) == Some(
            match mode {
                PermissionMode::Default => "default"@,
                PermissionMode::Plan => "plan"@,
                PermissionMode::AcceptEdits => "accept-edits"@,
                PermissionMode::Bypass => "bypass"@,
            },
        ),
        current_of(
            SettingsModel { thinking: Some(Thinking::Tokens(budget)), ..no_settings() },
            "thinking"@,
        ) == Some(decimal_of(budget as nat)),
        ({
            let shown = Some(
                if flag {
                    "true"@
                } else {
                    "false"@
                },
            );
            &&& current_of(
                SettingsModel { show_reasoning: Some(flag), ..no_settings() },
                "show-reasoning"@,
            ) == shown
            &&& current_of(SettingsModel { ascii: Some(flag), ..no_settings() }, "ascii"@) == shown
            &&& current_of(SettingsModel { sandbox: Some(flag), ..no_settings() }, "sandbox"@)
                == shown
            &&& current_of(
                SettingsModel { sandbox_network: Some(flag), ..no_settings() },
                "sandbox-network"@,
            ) == shown
        }),
        forall|key: Seq<char>| #[trigger] current_of(no_settings(), key) is None,
{
    reveal_strlit("model");
    reveal_strlit("mode");
    reveal_strlit("theme");
    reveal_strlit("thinking");
    reveal_strlit("show-reasoning");
    reveal_strlit("ascii");
    reveal_strlit("sandbox");
    reveal_strlit("sandbox-network");
    assert("model"@.len() == 5 && "mode"@.len() == 4 && "theme"@.len() == 5);
    assert("thinking"@.len() == 8 && "show-reasoning"@.len() == 14 && "ascii"@.len() == 5);
    assert("sandbox"@.len() == 7 && "sandbox-network"@.len() == 15);
    assert("model"@[0] == 'm' && "theme"@[0] == 't' && "ascii"@[0] == 'a');
}

/// What is in effect: what is set, or else the default, or else nothing; and whether it
/// was set.
pub proof fn law_what_is_in_effect(editable: EditableModel, settings: SettingsModel)
    ensures
        current_of(settings, editable.key) matches Some(value) ==> effective_of(editable, settings)
            == (value, true),
        current_of(settings, editable.key) is None ==> !effective_of(editable, settings).1,
        current_of(settings, editable.key) is None && editable.default is None ==> effective_of(
            editable,
            settings,
        ).0 == "unset"@,
        current_of(settings, editable.key) is None && editable.default is Some ==> effective_of(
            editable,
            settings,
        ).0 == (match editable.default->0 {
            ValueModel::Bool(true) => "true"@,
            ValueModel::Bool(false) => "false"@,
            ValueModel::Text(text) => text,
        }),
{
}

/// A value is found among the choices where one of them shows it, and is the first that
/// does; otherwise it is not found.
pub proof fn law_a_choice_is_found_by_what_it_shows(
    before: Seq<ChoiceModel>,
    one: ChoiceModel,
    after: Seq<ChoiceModel>,
    value: Seq<char>,
)
    requires
        forall|i: int| 0 <= i < before.len() ==> display_of((#[trigger] before[i]).value) != value,
    ensures
        choice_of(before, value) is None,
        display_of(one.value) == value ==> choice_of(before + seq![one] + after, value) == Some(one),
    decreases before.len(),
{
    let all = before + seq![one] + after;
    if before.len() == 0 {
        assert(all[0] == one);
    } else {
        let rest = before.drop_first();
        assert forall|i: int| 0 <= i < rest.len() implies display_of((#[trigger] rest[i]).value)
            != value by {
            assert(rest[i] == before[i + 1]);
        }
        assert(all[0] == before[0]);
        assert(display_of(before[0].value) != value);
        assert(all.drop_first() =~= rest + seq![one] + after);
        law_a_choice_is_found_by_what_it_shows(rest, one, after, value);
    }
}

/// A run of dashes.
pub open spec fn dashes_of(n: nat) -> Seq<char> {
    Seq::new(n, |i: int| '-')
}

/// A definition is its head between two lines of dashes and, behind them, what the agent is
/// told, without the white space around it. Without the lines it is none.
pub proof fn law_a_definition_has_a_head_and_a_prompt(
    yaml: Seq<char>,
    dashes: nat,
    body: Seq<char>,
    raw: Seq<char>,
)
    requires
        forall|i: int|
            0 <= i < yaml.len() ==> !begins(
                #[trigger] (yaml + "\n---"@ + dashes_of(dashes) + body).skip(i),
                "\n---"@,
            ),
        body.len() == 0 || body[0] != '-',
    ensures
        definition_parts(
            "---"@ + (yaml + "\n---"@ + dashes_of(dashes) + body),
        ) == Some((yaml, trim_of(body))),
        !begins(raw, "---"@) ==> definition_parts(raw) is None,
        begins(raw, "---"@) && find_text_of(raw.skip(3), "\n---"@) is None ==> definition_parts(raw)
            is None,
{
    reveal_strlit("---");
    assert("---"@.len() == 3);
    let many = dashes_of(dashes);
    let rest = yaml + "\n---"@ + many + body;
    let whole = "---"@ + rest;
    assert(whole.take(3) =~= "---"@);
    assert(whole.skip(3) =~= rest);
    assert(rest.skip(yaml.len() as int) =~= "\n---"@ + many + body);
    assert(("\n---"@ + many + body).take("\n---"@.len() as int) =~= "\n---"@);
    lemma_find_text_unique(rest, "\n---"@, yaml.len() as int);
    assert(rest.take(yaml.len() as int) =~= yaml);
    assert(rest.skip(yaml.len() as int + "\n---"@.len()) =~= many + body);
    law_every_one_of_a_character_is_dropped(body, '-', dashes);
}

/// An agent is called as its file is, without the extension.
pub proof fn law_an_agent_is_called_as_its_file(
    path: Seq<char>,
    dirs: Seq<Seq<char>>,
    name: Seq<char>,
)
    requires
        components_of(path) == dirs.push(name + ".md"@),
        name.len() > 0,
    ensures
        agent_name(path) == name,
{
    reveal_strlit(".md");
    assert(".md"@.len() == 3 && ".md"@[0] == '.' && ".md"@[1] == 'm' && ".md"@[2] == 'd');
    let extension = seq!['m', 'd'];
    assert(".md"@ =~= seq!['.'] + extension);
    assert(name + ".md"@ =~= name + seq!['.'] + extension);
    let file = name + ".md"@;
    assert(file[name.len() as int + 1] == 'm');
    assert(file.len() >= 4);
    assert(is_free_of(extension, '.'));
    law_a_name_is_stem_and_extension(name, extension);
    assert(components_of(path).last() == file);
}

/// Agents come from the built-in ones and from every file that could be read, and nowhere
/// else: a name that none of them has is not there, and one that no file has is the
/// built-in agent's.
pub proof fn law_agents_come_from_somewhere(
    found: Seq<Result<AgentDefinition, AgentError>>,
    name: Seq<char>,
)
    requires
        forall|i: int|
            0 <= i < found.len() && (#[trigger] found[i]) is Ok ==> found[i]->Ok_0.name@ != name,
    ensures
        all_agents(found).dom().contains(name) <==> all_agents(Seq::empty()).dom().contains(name),
        all_agents(found).dom().contains(name) ==> all_agents(found)[name] == all_agents(
            Seq::empty(),
        )[name],
        all_agents(Seq::empty()).dom().contains(name) ==> exists|i: int|
            0 <= i < builtins_of().len() && all_agents(Seq::empty())[name] == #[trigger]
                builtins_of()[i] && builtins_of()[i].name == name,
{
    let base = agents_by_name(Map::empty(), builtins_of());
    let none = Seq::<Result<AgentDefinition, AgentError>>::empty();
    assert(agents_by_name(base, loaded_of(none)) == base);
    lemma_loaded(found, name);
    lemma_unnamed(base, loaded_of(found), name);
    lemma_named(builtins_of(), name);
}

proof fn lemma_loaded(found: Seq<Result<AgentDefinition, AgentError>>, name: Seq<char>)
    requires
        forall|i: int|
            0 <= i < found.len() && (#[trigger] found[i]) is Ok ==> found[i]->Ok_0.name@ != name,
    ensures
        forall|i: int| 0 <= i < loaded_of(found).len() ==> (#[trigger] loaded_of(found)[i]).name
            != name,
    decreases found.len(),
{
    if found.len() > 0 {
        let rest = found.drop_last();
        assert forall|i: int| 0 <= i < rest.len() && (#[trigger] rest[i]) is Ok implies rest[i]->Ok_0.name@
            != name by {
            assert(rest[i] == found[i]);
        }
        lemma_loaded(rest, name);
        assert(found[found.len() - 1] == found.last());
        let all = loaded_of(found);
        assert forall|i: int| 0 <= i < all.len() implies (#[trigger] all[i]).name != name by {
            if i < loaded_of(rest).len() {
                assert(all[i] == loaded_of(rest)[i]);
            }
        }
    }
}

proof fn lemma_unnamed(
    under: Map<Seq<char>, AgentModel>,
    agents: Seq<AgentModel>,
    name: Seq<char>,
)
    requires
        forall|i: int| 0 <= i < agents.len() ==> (#[trigger] agents[i]).name != name,
    ensures
        agents_by_name(under, agents).dom().contains(name) == under.dom().contains(name),
        under.dom().contains(name) ==> agents_by_name(under, agents)[name] == under[name],
    decreases agents.len(),
{
    if agents.len() > 0 {
        let rest = agents.drop_last();
        assert forall|i: int| 0 <= i < rest.len() implies (#[trigger] rest[i]).name != name by {
            assert(rest[i] == agents[i]);
        }
        lemma_unnamed(under, rest, name);
        assert(agents[agents.len() - 1].name != name);
    }
}

proof fn lemma_named(agents: Seq<AgentModel>, name: Seq<char>)
    ensures
        ({
            let all = agents_by_name(Map::empty(), agents);
            all.dom().contains(name) ==> exists|i: int|
                0 <= i < agents.len() && all[name] == #[trigger] agents[i] && agents[i].name == name
        }),
    decreases agents.len(),
{
    if agents.len() > 0 {
        let rest = agents.drop_last();
        lemma_named(rest, name);
        if agents.last().name == name {
            assert(agents[agents.len() - 1] == agents.last());
        } else if agents_by_name(Map::empty(), rest).dom().contains(name) {
            let i = choose|i: int|
                0 <= i < rest.len() && agents_by_name(Map::empty(), rest)[name]
                    == #[trigger] rest[i] && rest[i].name == name;
            assert(agents[i] == rest[i]);
        }
    }
}

/// Every file that could not be used is reported, in its order, and no other.
pub proof fn law_failures_are_reported_in_order(
    a: Seq<Result<AgentDefinition, AgentError>>,
    b: Seq<Result<AgentDefinition, AgentError>>,
)
    ensures
        failed_of(a + b) == failed_of(a) + failed_of(b),
        loaded_of(a + b) == loaded_of(a) + loaded_of(b),
        a.len() == 1 && a[0] is Err ==> failed_of(a) == seq![a[0]->Err_0] && loaded_of(a).len() == 0,
        a.len() == 1 && a[0] is Ok ==> failed_of(a).len() == 0 && loaded_of(a) == seq![
            a[0]->Ok_0.deep_view(),
        ],
    decreases b.len(),
{
    let all = a + b;
    if a.len() == 1 {
        reveal_with_fuel(failed_of, 2);
        reveal_with_fuel(loaded_of, 2);
        assert(a.drop_last() =~= Seq::<Result<AgentDefinition, AgentError>>::empty());
        assert(a.last() == a[0]);
        if a[0] is Err {
            assert(failed_of(a) =~= seq![a[0]->Err_0]);
        } else {
            assert(loaded_of(a) =~= seq![a[0]->Ok_0.deep_view()]);
        }
    }
    if b.len() == 0 {
        assert(all =~= a);
        assert(failed_of(a) + failed_of(b) =~= failed_of(a));
        assert(loaded_of(a) + loaded_of(b) =~= loaded_of(a));
    } else {
        let rest = b.drop_last();
        law_failures_are_reported_in_order(a, rest);
        assert(all.drop_last() =~= a + rest);
        assert(all.last() == b.last());
        assert(failed_of(all) =~= failed_of(a) + failed_of(b));
        assert(loaded_of(all) =~= loaded_of(a) + loaded_of(b));
    }
}

/// The settings that can be changed are these, in this order; the model and the theme only
/// where there is one to choose. What holds where nothing is set is the first word of each.
pub proof fn law_what_can_be_set(models: Seq<Seq<char>>, themes: Seq<Seq<char>>)
    requires
        models.len() > 0,
        themes.len() > 0,
    ensures
        ({
            let all = catalogue_of(models, themes);
            &&& all.map_values(|e: EditableModel| e.key) == seq![
                "model"@,
                "mode"@,
                "thinking"@,
                "show-reasoning"@,
                "ascii"@,
                "theme"@,
                "sandbox"@,
                "sandbox-network"@,
            ]
            &&& all.map_values(|e: EditableModel| effective_of(e, no_settings()).0) == seq![
                "unset"@,
                "default"@,
                "auto"@,
                "false"@,
                "false"@,
                "octane"@,
                "true"@,
                "false"@,
            ]
            &&& catalogue_of(Seq::empty(), themes) == all.skip(1)
            &&& catalogue_of(models, Seq::empty()) == all.take(5) + all.skip(6)
        }),
{
    let all = catalogue_of(models, themes);
    law_each_setting_shows_its_own(Seq::empty(), PermissionMode::Default, 0, false);
    assert(all.len() == 8);
    let keys = all.map_values(|e: EditableModel| e.key);
    assert(keys =~= seq![
        "model"@,
        "mode"@,
        "thinking"@,
        "show-reasoning"@,
        "ascii"@,
        "theme"@,
        "sandbox"@,
        "sandbox-network"@,
    ]);
    assert forall|i: int| 0 <= i < 8 implies current_of(
        no_settings(),
        (#[trigger] all[i]).key,
    ) is None by {}
    let shown = all.map_values(|e: EditableModel| effective_of(e, no_settings()).0);
    assert(shown =~= seq![
        "unset"@,
        "default"@,
        "auto"@,
        "false"@,
        "false"@,
        "octane"@,
        "true"@,
        "false"@,
    ]);
    assert(catalogue_of(Seq::empty(), themes) =~= all.skip(1));
    assert(catalogue_of(models, Seq::empty()) =~= all.take(5) + all.skip(6));
}

/// Every value that a setting can have is offered: each mode, each effort, both answers to a
/// question, and every model and theme that there is.
pub proof fn law_every_value_can_be_set(
    models: Seq<Seq<char>>,
    themes: Seq<Seq<char>>,
    mode: PermissionMode,
    flag: bool,
    i: int,
)
    requires
        models.len() > 0,
        themes.len() > 0,
    ensures
        ({
            let all = catalogue_of(models, themes);
            let answer = if flag {
                "true"@
            } else {
                "false"@
            };
            &&& 0 <= i < models.len() ==> is_offered(all[0], models[i])
            &&& is_offered(all[1], label_of(mode))
            &&& is_offered(all[2], "auto"@) && is_offered(all[2], "off"@) && is_offered(
                all[2],
                "low"@,
            ) && is_offered(all[2], "medium"@) && is_offered(all[2], "high"@)
            &&& is_offered(all[3], answer)
            &&& is_offered(all[4], answer)
            &&& 0 <= i < themes.len() ==> is_offered(all[5], themes[i])
            &&& is_offered(all[6], answer)
            &&& is_offered(all[7], answer)
        }),
{
    let all = catalogue_of(models, themes);
    assert(all.len() == 8);
    if 0 <= i < models.len() {
        assert(shows(all[0].choices[i], models[i]));
    }
    if 0 <= i < themes.len() {
        assert(shows(all[5].choices[i], themes[i]));
    }
    let modes = all[1].choices;
    assert(shows(modes[0], "default"@) && shows(modes[1], "plan"@));
    assert(shows(modes[2], "accept-edits"@) && shows(modes[3], "bypass"@));
    let efforts = all[2].choices;
    assert(shows(efforts[0], "auto"@) && shows(efforts[1], "off"@) && shows(efforts[2], "low"@));
    assert(shows(efforts[3], "medium"@) && shows(efforts[4], "high"@));
    assert(shows(all[3].choices[0], "true"@) && shows(all[3].choices[1], "false"@));
    assert(shows(all[4].choices[0], "true"@) && shows(all[4].choices[1], "false"@));
    assert(shows(all[6].choices[0], "true"@) && shows(all[6].choices[1], "false"@));
    assert(shows(all[7].choices[0], "false"@) && shows(all[7].choices[1], "true"@));
}

/// Whether a choice shows a value.
pub open spec fn shows(choice: ChoiceModel, value: Seq<char>) -> bool {
    display_of(choice.value) == value
}

/// Whether a setting offers a value.
pub open spec fn is_offered(editable: EditableModel, value: Seq<char>) -> bool {
    exists|k: int| 0 <= k < editable.choices.len() && shows(#[trigger] editable.choices[k], value)
}

/// An effort is shown by its word, or by its number of tokens.
pub proof fn law_an_effort_is_shown_by_its_word(thinking: Thinking)
    ensures
        current_of(
            SettingsModel { thinking: Some(thinking), ..no_settings() },
            "thinking"@,
        ) == Some(
            match thinking {
                Thinking::Auto => "auto"@,
                Thinking::Off => "off"@,
                Thinking::Low => "low"@,
                Thinking::Medium => "medium"@,
                Thinking::High => "high"@,
                Thinking::Tokens(n) => decimal_of(n as nat),
            },
        ),
{
    law_each_setting_shows_its_own(Seq::empty(), PermissionMode::Default, 0, false);
    reveal_strlit("model");
    reveal_strlit("mode");
    reveal_strlit("thinking");
    assert("model"@.len() == 5 && "mode"@.len() == 4 && "thinking"@.len() == 8);
}

} // verus!
