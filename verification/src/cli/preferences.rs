//! Changing settings from inside a session.

use vstd::prelude::*;

use crate::cli::startup::{Row, RowModel};
use crate::cli::themes::NEW_THEME;
use crate::config::edit::{
    catalogue, catalogue_of, choice_of, display_of, effective_of, Applies, ChoiceModel, Editable,
    EditableModel, Value, ValueModel,
};
use crate::config::settings::{
    settings_error_text, thinking_label, Settings, SettingsError, SettingsModel, Thinking,
};
use crate::engine::prompt::{mode_switch_notice, mode_switch_text, notice_message, PromptAssembler};
use crate::permission::mode::label_of;
use crate::permission::PermissionMode;
use crate::protocol::message::{Message, MessageModel};
use crate::text::{same, trim, trim_of};

verus! {

/// A setting's row: what it is worth now, and whether anybody said so.
pub open spec fn setting_row(editable: EditableModel, settings: SettingsModel) -> RowModel {
    let (value, configured) = effective_of(editable, settings);
    RowModel {
        key: editable.key,
        label: editable.label,
        detail: editable.detail,
        state: if configured {
            value
        } else {
            value + " (default)"@
        },
        chosen: None,
    }
}

/// The rows of all settings.
pub open spec fn setting_rows_of(catalogue: Seq<EditableModel>, settings: SettingsModel) -> Seq<
    RowModel,
> {
    Seq::new(catalogue.len(), |i: int| setting_row(catalogue[i], settings))
}

/// The rows of the picker of settings. They carry the current values, so the picker
/// is the display too.
pub fn settings_picker(settings: &Settings, models: &[String], themes: &[String]) -> (r: Vec<Row>)
    ensures
        r.deep_view() == setting_rows_of(
            catalogue_of(models.deep_view(), themes.deep_view()),
            settings.deep_view(),
        ),
{
    let all = catalogue(models, themes);
    let ghost wanted = setting_rows_of(all.deep_view(), settings.deep_view());
    let mut rows: Vec<Row> = Vec::new();
    let mut i: usize = 0;
    while i < all.len()
        invariant
            i <= all@.len(),
            wanted == setting_rows_of(all.deep_view(), settings.deep_view()),
            rows.deep_view() == wanted.take(i as int),
        decreases all@.len() - i,
    {
        let ghost before = rows.deep_view();
        let editable = &all[i];
        let (value, configured) = editable.effective(settings);
        let mut state = value;
        if !configured {
            state.push_str(" (default)");
        }
        let row = Row {
            key: editable.key.to_owned(),
            label: editable.label.to_owned(),
            detail: editable.detail.to_owned(),
            state,
            chosen: None,
        };
        rows.push(row);
        assert(all.deep_view()[i as int] == editable.deep_view());
        assert(row.deep_view() == wanted[i as int]);
        assert(rows.deep_view() =~= before.push(row.deep_view()));
        assert(rows.deep_view() =~= wanted.take(i + 1));
        i += 1;
    }
    assert(wanted.take(i as int) =~= wanted);
    rows
}

/// Where the first setting with a key stands; the number of them if there is none.
pub open spec fn setting_at(catalogue: Seq<EditableModel>, key: Seq<char>) -> int
    decreases catalogue.len(),
{
    if catalogue.len() == 0 {
        0
    } else if catalogue[0].key == key {
        0
    } else {
        1 + setting_at(catalogue.drop_first(), key)
    }
}

proof fn lemma_setting_at(catalogue: Seq<EditableModel>, key: Seq<char>, n: int)
    requires
        0 <= n <= catalogue.len(),
        n < catalogue.len() ==> catalogue[n].key == key,
        forall|k: int| 0 <= k < n ==> (#[trigger] catalogue[k]).key != key,
    ensures
        setting_at(catalogue, key) == n,
    decreases catalogue.len(),
{
    if catalogue.len() > 0 && catalogue[0].key != key {
        let rest = catalogue.drop_first();
        assert forall|k: int| 0 <= k < n - 1 implies (#[trigger] rest[k]).key != key by {
            assert(rest[k] == catalogue[k + 1]);
        }
        if n < catalogue.len() {
            assert(rest[n - 1] == catalogue[n]);
        }
        lemma_setting_at(rest, key, n - 1);
    }
}

fn find_setting(all: &Vec<Editable>, key: &str) -> (r: usize)
    ensures
        r == setting_at(all.deep_view(), key@),
        r <= all@.len(),
{
    let ghost every = all.deep_view();
    let mut i: usize = 0;
    while i < all.len() && !same(all[i].key, key)
        invariant
            i <= all@.len(),
            every == all.deep_view(),
            forall|k: int| 0 <= k < i ==> (#[trigger] every[k]).key != key@,
        decreases all@.len() - i,
    {
        assert(every[i as int] == all@[i as int].deep_view());
        i += 1;
    }
    proof {
        if i < all@.len() {
            assert(every[i as int] == all@[i as int].deep_view());
        }
        lemma_setting_at(every, key@, i as int);
    }
    i
}

/// Whether a setting can be changed from inside a session.
pub fn is_editable(models: &[String], themes: &[String], key: &str) -> (r: bool)
    ensures
        r == (setting_at(catalogue_of(models.deep_view(), themes.deep_view()), key@) < catalogue_of(
            models.deep_view(),
            themes.deep_view(),
        ).len()),
{
    let all = catalogue(models, themes);
    let at: usize = find_setting(&all, key);
    assert(all.deep_view().len() == all@.len());
    at < all.len()
}

/// A value's row: whether it is the one in effect, and whether that was chosen.
pub open spec fn choice_row(choice: ChoiceModel, current: Seq<char>, configured: bool) -> RowModel {
    let display = display_of(choice.value);
    RowModel {
        key: display,
        label: choice.label,
        detail: choice.detail,
        state: if display == current && !configured {
            "default"@
        } else {
            Seq::empty()
        },
        chosen: Some(display == current),
    }
}

/// The row that makes a new theme. It is a door rather than a value.
pub open spec fn new_theme_row(ellipsis: Seq<char>) -> RowModel {
    RowModel {
        key: NEW_THEME@,
        label: "custom"@ + ellipsis,
        detail: "Copy a built-in into a file you can edit"@,
        state: Seq::empty(),
        chosen: None,
    }
}

/// The rows of the values one setting can take.
pub open spec fn value_rows(
    editable: EditableModel,
    settings: SettingsModel,
    ellipsis: Seq<char>,
) -> Seq<RowModel> {
    let (current, configured) = effective_of(editable, settings);
    let rows = Seq::new(
        editable.choices.len(),
        |i: int| choice_row(editable.choices[i], current, configured),
    );
    if editable.key == "theme"@ {
        rows.push(new_theme_row(ellipsis))
    } else {
        rows
    }
}

/// The rows of the values one setting can take, the current one marked; nothing
/// where there is no such setting.
pub fn setting_value_picker(
    settings: &Settings,
    models: &[String],
    themes: &[String],
    ellipsis: &str,
    key: &str,
) -> (r: Option<Vec<Row>>)
    ensures
        ({
            let all = catalogue_of(models.deep_view(), themes.deep_view());
            let at = setting_at(all, key@);
            match r {
                Some(rows) => at < all.len() && rows.deep_view() == value_rows(
                    all[at],
                    settings.deep_view(),
                    ellipsis@,
                ),
                None => at >= all.len(),
            }
        }),
{
    let all = catalogue(models, themes);
    assert(all.deep_view().len() == all@.len());
    let at: usize = find_setting(&all, key);
    if at >= all.len() {
        return None;
    }
    let editable = &all[at];
    assert(all.deep_view()[at as int] == editable.deep_view());
    let ghost model = editable.deep_view();
    let (current, configured) = editable.effective(settings);
    let ghost wanted = Seq::new(
        model.choices.len(),
        |i: int| choice_row(model.choices[i], current@, configured),
    );
    let mut rows: Vec<Row> = Vec::new();
    let mut i: usize = 0;
    while i < editable.choices.len()
        invariant
            i <= editable.choices@.len(),
            model == editable.deep_view(),
            wanted == Seq::new(
                model.choices.len(),
                |i: int| choice_row(model.choices[i], current@, configured),
            ),
            rows.deep_view() == wanted.take(i as int),
        decreases editable.choices@.len() - i,
    {
        let ghost before = rows.deep_view();
        let choice = &editable.choices[i];
        assert(model.choices[i as int] == choice.deep_view());
        let display = choice.value.display();
        let chosen: bool = same(&display, &current);
        let state = if chosen && !configured {
            "default".to_owned()
        } else {
            String::new()
        };
        assert(chosen && !configured || state@ =~= Seq::<char>::empty());
        let row = Row {
            key: display,
            label: choice.label.clone(),
            detail: choice.detail.clone(),
            state,
            chosen: Some(chosen),
        };
        rows.push(row);
        assert(row.deep_view() == wanted[i as int]);
        assert(rows.deep_view() =~= before.push(row.deep_view()));
        assert(rows.deep_view() =~= wanted.take(i + 1));
        i += 1;
    }
    assert(wanted.take(i as int) =~= wanted);
    if same(editable.key, "theme") {
        let ghost before = rows.deep_view();
        let mut label = "custom".to_owned();
        label.push_str(ellipsis);
        let row = Row {
            key: NEW_THEME.to_owned(),
            label,
            detail: "Copy a built-in into a file you can edit".to_owned(),
            state: String::new(),
            chosen: None,
        };
        assert(row.state@ =~= Seq::<char>::empty());
        rows.push(row);
        assert(rows.deep_view() =~= before.push(row.deep_view()));
    }
    Some(rows)
}

/// Where choosing a setting's value leads.
pub open spec fn choice_made(catalogue: Seq<EditableModel>, key: Seq<char>, value: Seq<char>) -> Result<
    (ValueModel, Applies),
    Seq<char>,
> {
    let at = setting_at(catalogue, key);
    if at >= catalogue.len() {
        Err(key + " is not an editable setting"@)
    } else {
        match choice_of(catalogue[at].choices, value) {
            None => Err(value + " is not a value "@ + key + " can take"@),
            Some(choice) => Ok((choice.value, catalogue[at].applies)),
        }
    }
}

/// The value to write for a choice, and when it takes effect.
pub fn choose_value(models: &[String], themes: &[String], key: &str, value: &str) -> (r: Result<
    (Value, Applies),
    String,
>)
    ensures
        match r {
            Ok((chosen, applies)) => choice_made(
                catalogue_of(models.deep_view(), themes.deep_view()),
                key@,
                value@,
            ) == Ok::<_, Seq<char>>((chosen.deep_view(), applies)),
            Err(error) => choice_made(
                catalogue_of(models.deep_view(), themes.deep_view()),
                key@,
                value@,
            ) == Err::<(ValueModel, Applies), _>(error@),
        },
{
    let all = catalogue(models, themes);
    assert(all.deep_view().len() == all@.len());
    let at: usize = find_setting(&all, key);
    if at >= all.len() {
        let mut error = key.to_owned();
        error.push_str(" is not an editable setting");
        return Err(error);
    }
    assert(all.deep_view()[at as int] == all@[at as int].deep_view());
    match all[at].choice(value) {
        None => {
            let mut error = value.to_owned();
            error.push_str(" is not a value ");
            error.push_str(key);
            error.push_str(" can take");
            Err(error)
        },
        Some(choice) => {
            let chosen = match &choice.value {
                Value::Bool(value) => Value::Bool(*value),
                Value::Text(value) => Value::Text(value.clone()),
            };
            Ok((chosen, all[at].applies))
        },
    }
}

/// What a running session has to change to match its settings.
#[derive(Debug, PartialEq, Eq)]
pub enum Live {
    /// The label of the mode.
    Mode(PermissionMode),
    /// Whether reasoning is shown.
    Reasoning(bool),
    /// Whether only ASCII is drawn.
    Ascii(bool),
    /// The theme by this name, if it resolves.
    Theme(Option<String>),
    Nothing,
}

/// What a [`Live`] says.
pub enum LiveModel {
    Mode(PermissionMode),
    Reasoning(bool),
    Ascii(bool),
    Theme(Option<Seq<char>>),
    Nothing,
}

impl DeepView for Live {
    type V = LiveModel;

    open spec fn deep_view(&self) -> LiveModel {
        match *self {
            Live::Mode(mode) => LiveModel::Mode(mode),
            Live::Reasoning(shown) => LiveModel::Reasoning(shown),
            Live::Ascii(on) => LiveModel::Ascii(on),
            Live::Theme(name) => LiveModel::Theme(crate::text::text_of(name)),
            Live::Nothing => LiveModel::Nothing,
        }
    }
}

/// What of a session a change of settings can touch.
pub struct Running {
    pub mode: PermissionMode,
    pub thinking: Thinking,
    pub history: Seq<MessageModel>,
}

/// A history after the mode became another: the model is told, once and behind
/// everything else.
pub open spec fn told_of_mode(
    history: Seq<MessageModel>,
    from: PermissionMode,
    to: PermissionMode,
) -> Seq<MessageModel> {
    if from == to {
        history
    } else {
        history.push(notice_message(mode_switch_text(label_of(from), label_of(to))))
    }
}

/// A session after its settings changed under a key, and what else has to follow.
/// What is read only at startup changes nothing.
pub open spec fn live_of(running: Running, settings: SettingsModel, key: Seq<char>) -> (
    Running,
    LiveModel,
) {
    if key == "mode"@ {
        let next = match settings.mode {
            Some(mode) => mode,
            None => PermissionMode::Default,
        };
        (
            Running {
                mode: next,
                history: told_of_mode(running.history, running.mode, next),
                ..running
            },
            LiveModel::Mode(next),
        )
    } else if key == "thinking"@ {
        (
            Running {
                thinking: match settings.thinking {
                    Some(thinking) => thinking,
                    None => Thinking::Auto,
                },
                ..running
            },
            LiveModel::Nothing,
        )
    } else if key == "show-reasoning"@ {
        (running, LiveModel::Reasoning(settings.show_reasoning == Some(true)))
    } else if key == "ascii"@ {
        (running, LiveModel::Ascii(settings.ascii == Some(true)))
    } else if key == "theme"@ {
        (running, LiveModel::Theme(settings.theme))
    } else {
        (running, LiveModel::Nothing)
    }
}

/// Switches modes, and tells the model if that is a change.
pub fn switch_mode(mode: &mut PermissionMode, next: PermissionMode, history: &mut Vec<Message>)
    ensures
        *final(mode) == next,
        final(history).deep_view() == told_of_mode(old(history).deep_view(), *old(mode), next),
{
    if next != *mode {
        PromptAssembler::append_change_notice(
            history,
            &mode_switch_notice(mode.label(), next.label()),
        );
    }
    *mode = next;
}

/// Whether an optional truth value says yes.
fn says_yes(value: Option<bool>) -> (r: bool)
    ensures
        r == (value == Some(true)),
{
    match value {
        Some(value) => value,
        None => false,
    }
}

/// Makes a running session match settings that changed under a key. A change that is
/// right in the file and invisible in the session reads as broken.
pub fn apply_setting(
    mode: &mut PermissionMode,
    thinking: &mut Thinking,
    history: &mut Vec<Message>,
    settings: &Settings,
    key: &str,
) -> (r: Live)
    ensures
        live_of(
            Running {
                mode: *old(mode),
                thinking: *old(thinking),
                history: old(history).deep_view(),
            },
            settings.deep_view(),
            key@,
        ) == (
            Running {
                mode: *final(mode),
                thinking: *final(thinking),
                history: final(history).deep_view(),
            },
            r.deep_view(),
        ),
{
    if same(key, "mode") {
        let next = match settings.mode {
            Some(mode) => mode,
            None => PermissionMode::default(),
        };
        switch_mode(mode, next, history);
        Live::Mode(next)
    } else if same(key, "thinking") {
        *thinking = match settings.thinking {
            Some(thinking) => thinking,
            None => Thinking::default(),
        };
        Live::Nothing
    } else if same(key, "show-reasoning") {
        Live::Reasoning(says_yes(settings.show_reasoning))
    } else if same(key, "ascii") {
        Live::Ascii(says_yes(settings.ascii))
    } else if same(key, "theme") {
        Live::Theme(settings.theme.clone())
    } else {
        Live::Nothing
    }
}

/// Errors, each in a paragraph.
pub open spec fn error_paragraphs(errors: Seq<SettingsError>) -> Seq<char>
    decreases errors.len(),
{
    if errors.len() == 0 {
        Seq::empty()
    } else {
        error_paragraphs(errors.drop_last()) + "\n! "@ + settings_error_text(errors.last()) + "\n"@
    }
}

/// What is said of a change.
pub open spec fn change_text(
    key: Seq<char>,
    value: Seq<char>,
    target: Seq<char>,
    applies: Applies,
    errors: Seq<SettingsError>,
) -> Seq<char> {
    "`"@ + key + "` is now `"@ + value + "` in "@ + target + ".\n"@ + (if applies
        == Applies::OnRestart {
        "\nRestart octane for it to take effect.\n"@
    } else {
        Seq::empty()
    }) + error_paragraphs(errors)
}

/// What is said of a change: where it was written, and when it takes effect.
pub fn change_report(
    key: &str,
    value: &str,
    target: &str,
    applies: Applies,
    errors: &Vec<SettingsError>,
) -> (r: String)
    ensures
        r@ == change_text(key@, value@, target@, applies, errors@),
{
    let mut out = "`".to_owned();
    out.push_str(key);
    out.push_str("` is now `");
    out.push_str(value);
    out.push_str("` in ");
    out.push_str(target);
    out.push_str(".\n");
    let ghost before = out@;
    if applies == Applies::OnRestart {
        out.push_str("\nRestart octane for it to take effect.\n");
    } else {
        assert(before + Seq::<char>::empty() =~= before);
    }
    let ghost head = out@;
    let mut i: usize = 0;
    assert(errors@.take(0) =~= Seq::<SettingsError>::empty());
    assert(head + error_paragraphs(errors@.take(0)) =~= head);
    while i < errors.len()
        invariant
            i <= errors@.len(),
            out@ == head + error_paragraphs(errors@.take(i as int)),
        decreases errors@.len() - i,
    {
        assert(errors@.take(i + 1).drop_last() =~= errors@.take(i as int));
        assert(errors@.take(i + 1).last() == errors@[i as int]);
        out.push_str("\n! ");
        out.push_str(&errors[i].to_string());
        out.push_str("\n");
        assert(out@ =~= head + error_paragraphs(errors@.take(i + 1)));
        i += 1;
    }
    assert(errors@.take(i as int) =~= errors@);
    out
}

/// What `/thinking` comes to: whether reasoning is shown, how hard the model reasons,
/// and what is said.
pub open spec fn thinking_of(
    showing: bool,
    thinking: Thinking,
    args: Seq<char>,
    parsed: Result<Thinking, Seq<char>>,
) -> (bool, Thinking, Seq<char>) {
    if trim_of(args).len() == 0 {
        (
            !showing,
            thinking,
            "Reasoning is now "@ + (if showing {
                "hidden"@
            } else {
                "shown"@
            }) + ". Effort is "@ + thinking_label(thinking)
                + ".\n\n  /thinking off | low | medium | high | <tokens>\n"@,
        )
    } else {
        match parsed {
            Ok(level) => (
                showing,
                level,
                "Thinking effort set to "@ + thinking_label(level) + "."@ + (if level is Off {
                    "\n\n  Not every endpoint honours this. Gemini and GPT-OSS via OpenRouter\n  both refuse outright and reason anyway. Effort levels do work there,\n  so `/thinking low` is the lever that always does something."@
                } else {
                    Seq::empty()
                }),
            ),
            Err(error) => (showing, thinking, error),
        }
    }
}

/// `/thinking`: alone it shows or hides reasoning, with a level it sets how hard the
/// model reasons. `parsed` is the level as read, or what is wrong with it.
pub fn set_thinking(
    showing: &mut bool,
    thinking: &mut Thinking,
    args: &str,
    parsed: Result<Thinking, String>,
) -> (r: String)
    ensures
        (*final(showing), *final(thinking), r@) == thinking_of(
            *old(showing),
            *old(thinking),
            args@,
            match parsed {
                Ok(level) => Ok(level),
                Err(error) => Err(error@),
            },
        ),
{
    if trim(args).as_str().is_empty() {
        let mut r = "Reasoning is now ".to_owned();
        if *showing {
            r.push_str("hidden");
        } else {
            r.push_str("shown");
        }
        r.push_str(". Effort is ");
        r.push_str(&thinking.label());
        r.push_str(".\n\n  /thinking off | low | medium | high | <tokens>\n");
        *showing = !*showing;
        return r;
    }
    match parsed {
        Ok(level) => {
            *thinking = level;
            let mut r = "Thinking effort set to ".to_owned();
            r.push_str(&level.label());
            r.push_str(".");
            let ghost before = r@;
            if level.is_off() {
                r.push_str(
                    "\n\n  Not every endpoint honours this. Gemini and GPT-OSS via OpenRouter\n  both refuse outright and reason anyway. Effort levels do work there,\n  so `/thinking low` is the lever that always does something.",
                );
            } else {
                assert(before + Seq::<char>::empty() =~= before);
            }
            r
        },
        Err(error) => error,
    }
}

/// The mode on the screen and the mode that decides are one: after a change of the
/// mode they are the same, and the model was told if it is another than before.
pub proof fn law_the_mode_is_one(running: Running, settings: SettingsModel)
    ensures
        ({
            let (after, live) = live_of(running, settings, "mode"@);
            &&& live == LiveModel::Mode(after.mode)
            &&& after.mode != running.mode ==> after.history == running.history.push(
                notice_message(mode_switch_text(label_of(running.mode), label_of(after.mode))),
            )
            &&& after.mode == running.mode ==> after.history == running.history
        }),
{
}

/// Every value that a setting's picker offers can be chosen: the row's key reads as a
/// choice of that setting. The row that makes a new theme is no value.
pub proof fn law_every_offered_value_can_be_chosen(
    editable: EditableModel,
    settings: SettingsModel,
    ellipsis: Seq<char>,
    i: int,
)
    requires
        0 <= i < editable.choices.len(),
    ensures
        choice_of(editable.choices, value_rows(editable, settings, ellipsis)[i].key) is Some,
{
    lemma_choice_found(editable.choices, i);
}

proof fn lemma_choice_found(choices: Seq<ChoiceModel>, i: int)
    requires
        0 <= i < choices.len(),
    ensures
        choice_of(choices, display_of(choices[i].value)) is Some,
    decreases choices.len(),
{
    if i > 0 && display_of(choices[0].value) != display_of(choices[i].value) {
        assert(choices.drop_first()[i - 1] == choices[i]);
        lemma_choice_found(choices.drop_first(), i - 1);
    }
}

} // verus!
