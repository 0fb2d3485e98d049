//! What `/settings` can change, and changing it without destroying the file.
//!
//! The catalogue lists the settings whose values are known, so that every choice
//! it offers is valid. The write preserves comments: a settings file is edited by
//! hand, and most of it is comments.

use vstd::prelude::*;

use crate::config::settings::{thinking_label, Settings, SettingsModel, TEMPLATE};
use crate::paths;
use crate::paths::joined;
use crate::permission::mode::label_of;
use crate::text::{begins, chars_of, find_text_of, lines_of, same, text_of, trim_start_of};

verus! {

/// A value a setting can hold. Only the shapes a picker can offer.
#[derive(Debug, PartialEq, Eq)]
pub enum Value {
    Bool(bool),
    Text(String),
}

/// What a [`Value`] is.
pub enum ValueModel {
    Bool(bool),
    Text(Seq<char>),
}

impl DeepView for Value {
    type V = ValueModel;

    open spec fn deep_view(&self) -> ValueModel {
        match *self {
            Value::Bool(value) => ValueModel::Bool(value),
            Value::Text(value) => ValueModel::Text(value@),
        }
    }
}

/// How a truth value is spelled.
pub open spec fn bool_text(value: bool) -> Seq<char> {
    if value {
        "true"@
    } else {
        "false"@
    }
}

fn spell(value: bool) -> (r: String)
    ensures
        r@ == bool_text(value),
{
    if value {
        "true".to_owned()
    } else {
        "false".to_owned()
    }
}

/// How a value reads on the screen and in the file.
pub open spec fn display_of(value: ValueModel) -> Seq<char> {
    match value {
        ValueModel::Bool(value) => bool_text(value),
        ValueModel::Text(value) => value,
    }
}

impl Value {
    pub fn text(value: &str) -> (r: Self)
        ensures
            r.deep_view() == ValueModel::Text(value@),
    {
        Value::Text(value.to_owned())
    }

    /// How the value reads on the screen and in the file.
    pub fn display(&self) -> (r: String)
        ensures
            r@ == display_of(self.deep_view()),
    {
        match self {
            Value::Bool(value) => spell(*value),
            Value::Text(value) => value.clone(),
        }
    }
}

/// One offered value, with the sentence that explains why to pick it.
#[derive(Debug, PartialEq, Eq)]
pub struct Choice {
    pub value: Value,
    pub label: String,
    pub detail: String,
}

/// What a [`Choice`] is.
pub struct ChoiceModel {
    pub value: ValueModel,
    pub label: Seq<char>,
    pub detail: Seq<char>,
}

impl DeepView for Choice {
    type V = ChoiceModel;

    open spec fn deep_view(&self) -> ChoiceModel {
        ChoiceModel {
            value: self.value.deep_view(),
            label: self.label@,
            detail: self.detail@,
        }
    }
}

impl Choice {
    pub fn new(value: Value, label: &str, detail: &str) -> (r: Self)
        ensures
            r.deep_view() == (ChoiceModel {
                value: value.deep_view(),
                label: label@,
                detail: detail@,
            }),
    {
        Choice { value, label: label.to_owned(), detail: detail.to_owned() }
    }

    /// A choice of a truth value.
    pub fn boolean(value: bool, label: &str, detail: &str) -> (r: Self)
        ensures
            r.deep_view() == (ChoiceModel {
                value: ValueModel::Bool(value),
                label: label@,
                detail: detail@,
            }),
    {
        Choice::new(Value::Bool(value), label, detail)
    }
}

/// When a change takes effect.
#[derive(Debug, Clone, Copy, PartialEq, Eq, Structural)]
pub enum Applies {
    /// The running session picks it up.
    Live,
    /// Read once at startup.
    OnRestart,
}

/// A setting that a picker can offer.
#[derive(Debug)]
pub struct Editable {
    pub key: &'static str,
    pub label: &'static str,
    pub detail: &'static str,
    pub applies: Applies,
    /// What the value is when no file sets it; `None` where that is not fixed.
    pub default: Option<Value>,
    pub choices: Vec<Choice>,
}

/// What an [`Editable`] is.
pub struct EditableModel {
    pub key: Seq<char>,
    pub label: Seq<char>,
    pub detail: Seq<char>,
    pub applies: Applies,
    pub default: Option<ValueModel>,
    pub choices: Seq<ChoiceModel>,
}

/// The value an optional value holds.
pub open spec fn value_of(value: Option<Value>) -> Option<ValueModel> {
    match value {
        Some(value) => Some(value.deep_view()),
        None => None,
    }
}

impl DeepView for Editable {
    type V = EditableModel;

    open spec fn deep_view(&self) -> EditableModel {
        EditableModel {
            key: self.key@,
            label: self.label@,
            detail: self.detail@,
            applies: self.applies,
            default: value_of(self.default),
            choices: self.choices.deep_view(),
        }
    }
}

/// What a setting is worth, and whether anything set it.
pub open spec fn effective_of(editable: EditableModel, settings: SettingsModel) -> (Seq<char>, bool) {
    match current_of(settings, editable.key) {
        Some(value) => (value, true),
        None => (
            match editable.default {
                Some(value) => display_of(value),
                None => "unset"@,
            },
            false,
        ),
    }
}

/// The first choice that reads as `value`.
pub open spec fn choice_of(choices: Seq<ChoiceModel>, value: Seq<char>) -> Option<ChoiceModel>
    decreases choices.len(),
{
    if choices.len() == 0 {
        None
    } else if display_of(choices[0].value) == value {
        Some(choices[0])
    } else {
        choice_of(choices.drop_first(), value)
    }
}

impl Editable {
    /// What the setting is worth right now, and whether anything set it.
    pub fn effective(&self, settings: &Settings) -> (r: (String, bool))
        ensures
            (r.0@, r.1) == effective_of(self.deep_view(), settings.deep_view()),
    {
        match current(settings, self.key) {
            Some(value) => (value, true),
            None => match &self.default {
                Some(value) => (value.display(), false),
                None => ("unset".to_owned(), false),
            },
        }
    }

    /// The choice that reads as a stored value.
    pub fn choice(&self, value: &str) -> (r: Option<&Choice>)
        ensures
            match r {
                Some(choice) => choice_of(self.deep_view().choices, value@) == Some(
                    choice.deep_view(),
                ),
                None => choice_of(self.deep_view().choices, value@) is None,
            },
    {
        let ghost choices = self.deep_view().choices;
        let mut i: usize = 0;
        assert(choices.skip(0) =~= choices);
        while i < self.choices.len()
            invariant
                i <= self.choices@.len(),
                choices == self.choices.deep_view(),
                choice_of(choices, value@) == choice_of(choices.skip(i as int), value@),
            decreases self.choices@.len() - i,
        {
            assert(choices.skip(i as int)[0] == self.choices@[i as int].deep_view());
            assert(choices.skip(i as int).drop_first() =~= choices.skip(i + 1));
            if same(&self.choices[i].value.display(), value) {
                return Some(&self.choices[i]);
            }
            i += 1;
        }
        None
    }
}

/// One choice per name, each with the same detail.
pub open spec fn named_choices(names: Seq<Seq<char>>, detail: Seq<char>) -> Seq<ChoiceModel> {
    Seq::new(
        names.len(),
        |i: int| ChoiceModel { value: ValueModel::Text(names[i]), label: names[i], detail },
    )
}

fn choices_named(names: &[String], detail: &str) -> (r: Vec<Choice>)
    ensures
        r.deep_view() == named_choices(names.deep_view(), detail@),
{
    let ghost wanted = named_choices(names.deep_view(), detail@);
    let mut r: Vec<Choice> = Vec::new();
    let mut i: usize = 0;
    while i < names.len()
        invariant
            i <= names@.len(),
            wanted == named_choices(names.deep_view(), detail@),
            r.deep_view() == wanted.take(i as int),
        decreases names@.len() - i,
    {
        let ghost before = r.deep_view();
        let choice = Choice::new(Value::text(&names[i]), &names[i], detail);
        r.push(choice);
        assert(names.deep_view()[i as int] == names@[i as int]@);
        assert(r.deep_view() =~= before.push(choice.deep_view()));
        assert(r.deep_view() =~= wanted.take(i + 1));
        i += 1;
    }
    assert(wanted.take(i as int) =~= wanted);
    r
}

/// The entry of `model`, whose values are given.
pub open spec fn model_entry(names: Seq<Seq<char>>) -> EditableModel {
    EditableModel {
        key: "model"@,
        label: "model"@,
        detail: "Which model answers"@,
        applies: Applies::OnRestart,
        default: None,
        choices: named_choices(names, "configured provider/model"@),
    }
}

/// The entry of `mode`.
pub open spec fn mode_entry() -> EditableModel {
    EditableModel {
        key: "mode"@,
        label: "mode"@,
        detail: "How much is asked before it happens"@,
        applies: Applies::Live,
        default: Some(ValueModel::Text("default"@)),
        choices: seq![
            ChoiceModel {
                value: ValueModel::Text("default"@),
                label: "default"@,
                detail: "Ask before commands; edit in the project freely"@,
            },
            ChoiceModel {
                value: ValueModel::Text("plan"@),
                label: "plan"@,
                detail: "Read-only; propose, change nothing"@,
            },
            ChoiceModel {
                value: ValueModel::Text("accept-edits"@),
                label: "accept-edits"@,
                detail: "Auto-approve edits anywhere, still ask for commands"@,
            },
            ChoiceModel {
                value: ValueModel::Text("bypass"@),
                label: "bypass"@,
                detail: "Skip prompts; deny rules and the sandbox still apply"@,
            },
        ],
    }
}

/// The entry of `thinking`.
pub open spec fn thinking_entry() -> EditableModel {
    EditableModel {
        key: "thinking"@,
        label: "thinking"@,
        detail: "How hard the model reasons"@,
        applies: Applies::Live,
        default: Some(ValueModel::Text("auto"@)),
        choices: seq![
            ChoiceModel {
                value: ValueModel::Text("auto"@),
                label: "auto"@,
                detail: "Let the endpoint decide"@,
            },
            ChoiceModel {
                value: ValueModel::Text("off"@),
                label: "off"@,
                detail: "Some endpoints refuse this and reason anyway"@,
            },
            ChoiceModel {
                value: ValueModel::Text("low"@),
                label: "low"@,
                detail: "Least reasoning that still works everywhere"@,
            },
            ChoiceModel {
                value: ValueModel::Text("medium"@),
                label: "medium"@,
                detail: ""@,
            },
            ChoiceModel {
                value: ValueModel::Text("high"@),
                label: "high"@,
                detail: "Slowest and most expensive"@,
            },
        ],
    }
}

/// The entry of `show-reasoning`.
pub open spec fn show_reasoning_entry() -> EditableModel {
    EditableModel {
        key: "show-reasoning"@,
        label: "show-reasoning"@,
        detail: "Whether reasoning appears in the transcript"@,
        applies: Applies::Live,
        default: Some(ValueModel::Bool(false)),
        choices: seq![
            ChoiceModel {
                value: ValueModel::Bool(true),
                label: "true"@,
                detail: "Show it as it streams"@,
            },
            ChoiceModel {
                value: ValueModel::Bool(false),
                label: "false"@,
                detail: "Hide it; the model still reasons"@,
            },
        ],
    }
}

/// The entry of `ascii`.
pub open spec fn ascii_entry() -> EditableModel {
    EditableModel {
        key: "ascii"@,
        label: "ascii"@,
        detail: "Force the ASCII glyph set"@,
        applies: Applies::Live,
        default: Some(ValueModel::Bool(false)),
        choices: seq![
            ChoiceModel {
                value: ValueModel::Bool(true),
                label: "true"@,
                detail: "For terminals without dependable Unicode"@,
            },
            ChoiceModel {
                value: ValueModel::Bool(false),
                label: "false"@,
                detail: "Box drawing and geometric shapes"@,
            },
        ],
    }
}

/// The entry of `theme`, whose values are given.
pub open spec fn theme_entry(names: Seq<Seq<char>>) -> EditableModel {
    EditableModel {
        key: "theme"@,
        label: "theme"@,
        detail: "Colour scheme"@,
        applies: Applies::Live,
        default: Some(ValueModel::Text("octane"@)),
        choices: named_choices(names, ""@),
    }
}

/// The entry of `sandbox`.
pub open spec fn sandbox_entry() -> EditableModel {
    EditableModel {
        key: "sandbox"@,
        label: "sandbox"@,
        detail: "OS containment for shell commands"@,
        applies: Applies::OnRestart,
        default: Some(ValueModel::Bool(true)),
        choices: seq![
            ChoiceModel {
                value: ValueModel::Bool(true),
                label: "true"@,
                detail: "Commands run confined to the workspace"@,
            },
            ChoiceModel {
                value: ValueModel::Bool(false),
                label: "false"@,
                detail: "Unconfined. Policy still asks, nothing enforces"@,
            },
        ],
    }
}

/// The entry of `sandbox-network`.
pub open spec fn sandbox_network_entry() -> EditableModel {
    EditableModel {
        key: "sandbox-network"@,
        label: "sandbox-network"@,
        detail: "Whether contained commands reach the network"@,
        applies: Applies::OnRestart,
        default: Some(ValueModel::Bool(false)),
        choices: seq![
            ChoiceModel {
                value: ValueModel::Bool(false),
                label: "false"@,
                detail: "Denied, so a build cannot exfiltrate"@,
            },
            ChoiceModel {
                value: ValueModel::Bool(true),
                label: "true"@,
                detail: "Allowed, for commands that must fetch"@,
            },
        ],
    }
}

/// An entry that is offered only where there is something to choose.
pub open spec fn if_any(names: Seq<Seq<char>>, entry: EditableModel) -> Seq<EditableModel> {
    if names.len() == 0 {
        Seq::empty()
    } else {
        seq![entry]
    }
}

/// Every setting a picker can offer, in the order they are shown.
pub open spec fn catalogue_of(
    models: Seq<Seq<char>>,
    themes: Seq<Seq<char>>,
) -> Seq<EditableModel> {
    if_any(models, model_entry(models)) + seq![
        mode_entry(),
        thinking_entry(),
        show_reasoning_entry(),
        ascii_entry(),
    ] + if_any(themes, theme_entry(themes)) + seq![sandbox_entry(), sandbox_network_entry()]
}

fn model_editable(names: &[String]) -> (r: Editable)
    ensures
        r.deep_view() == model_entry(names.deep_view()),
{
    Editable {
        key: "model",
        label: "model",
        detail: "Which model answers",
        applies: Applies::OnRestart,
        default: None,
        choices: choices_named(names, "configured provider/model"),
    }
}

fn mode_editable() -> (r: Editable)
    ensures
        r.deep_view() == mode_entry(),
{
    let mut choices: Vec<Choice> = Vec::new();
    choices.push(Choice::new(Value::text("default"), "default", "Ask before commands; edit in the project freely"));
    choices.push(Choice::new(Value::text("plan"), "plan", "Read-only; propose, change nothing"));
    choices.push(Choice::new(Value::text("accept-edits"), "accept-edits", "Auto-approve edits anywhere, still ask for commands"));
    choices.push(Choice::new(Value::text("bypass"), "bypass", "Skip prompts; deny rules and the sandbox still apply"));
    assert(choices.deep_view() =~= mode_entry().choices);
    Editable {
        key: "mode",
        label: "mode",
        detail: "How much is asked before it happens",
        applies: Applies::Live,
        default: Some(Value::text("default")),
        choices,
    }
}

fn thinking_editable() -> (r: Editable)
    ensures
        r.deep_view() == thinking_entry(),
{
    let mut choices: Vec<Choice> = Vec::new();
    choices.push(Choice::new(Value::text("auto"), "auto", "Let the endpoint decide"));
    choices.push(Choice::new(Value::text("off"), "off", "Some endpoints refuse this and reason anyway"));
    choices.push(Choice::new(Value::text("low"), "low", "Least reasoning that still works everywhere"));
    choices.push(Choice::new(Value::text("medium"), "medium", ""));
    choices.push(Choice::new(Value::text("high"), "high", "Slowest and most expensive"));
    assert(choices.deep_view() =~= thinking_entry().choices);
    Editable {
        key: "thinking",
        label: "thinking",
        detail: "How hard the model reasons",
        applies: Applies::Live,
        default: Some(Value::text("auto")),
        choices,
    }
}

fn show_reasoning_editable() -> (r: Editable)
    ensures
        r.deep_view() == show_reasoning_entry(),
{
    let mut choices: Vec<Choice> = Vec::new();
    choices.push(Choice::boolean(true, "true", "Show it as it streams"));
    choices.push(Choice::boolean(false, "false", "Hide it; the model still reasons"));
    assert(choices.deep_view() =~= show_reasoning_entry().choices);
    Editable {
        key: "show-reasoning",
        label: "show-reasoning",
        detail: "Whether reasoning appears in the transcript",
        applies: Applies::Live,
        default: Some(Value::Bool(false)),
        choices,
    }
}

fn ascii_editable() -> (r: Editable)
    ensures
        r.deep_view() == ascii_entry(),
{
    let mut choices: Vec<Choice> = Vec::new();
    choices.push(Choice::boolean(true, "true", "For terminals without dependable Unicode"));
    choices.push(Choice::boolean(false, "false", "Box drawing and geometric shapes"));
    assert(choices.deep_view() =~= ascii_entry().choices);
    Editable {
        key: "ascii",
        label: "ascii",
        detail: "Force the ASCII glyph set",
        applies: Applies::Live,
        default: Some(Value::Bool(false)),
        choices,
    }
}

fn theme_editable(names: &[String]) -> (r: Editable)
    ensures
        r.deep_view() == theme_entry(names.deep_view()),
{
    Editable {
        key: "theme",
        label: "theme",
        detail: "Colour scheme",
        applies: Applies::Live,
        default: Some(Value::text("octane")),
        choices: choices_named(names, ""),
    }
}

fn sandbox_editable() -> (r: Editable)
    ensures
        r.deep_view() == sandbox_entry(),
{
    let mut choices: Vec<Choice> = Vec::new();
    choices.push(Choice::boolean(true, "true", "Commands run confined to the workspace"));
    choices.push(Choice::boolean(false, "false", "Unconfined. Policy still asks, nothing enforces"));
    assert(choices.deep_view() =~= sandbox_entry().choices);
    Editable {
        key: "sandbox",
        label: "sandbox",
        detail: "OS containment for shell commands",
        applies: Applies::OnRestart,
        default: Some(Value::Bool(true)),
        choices,
    }
}

fn sandbox_network_editable() -> (r: Editable)
    ensures
        r.deep_view() == sandbox_network_entry(),
{
    let mut choices: Vec<Choice> = Vec::new();
    choices.push(Choice::boolean(false, "false", "Denied, so a build cannot exfiltrate"));
    choices.push(Choice::boolean(true, "true", "Allowed, for commands that must fetch"));
    assert(choices.deep_view() =~= sandbox_network_entry().choices);
    Editable {
        key: "sandbox-network",
        label: "sandbox-network",
        detail: "Whether contained commands reach the network",
        applies: Applies::OnRestart,
        default: Some(Value::Bool(false)),
        choices,
    }
}

/// Every setting a picker can offer, in the order they are shown. The models and
/// the themes are supplied, since only their owners know them. Permissions are not
/// offered: a broad grant should cost a deliberate edit.
pub fn catalogue(models: &[String], themes: &[String]) -> (r: Vec<Editable>)
    ensures
        r.deep_view() == catalogue_of(models.deep_view(), themes.deep_view()),
{
    let ghost m = models.deep_view();
    let ghost t = themes.deep_view();
    let mut all: Vec<Editable> = Vec::new();
    if models.len() > 0 {
        all.push(model_editable(models));
    }
    assert(all.deep_view() =~= if_any(m, model_entry(m)));
    let ghost first = all.deep_view();
    all.push(mode_editable());
    all.push(thinking_editable());
    all.push(show_reasoning_editable());
    all.push(ascii_editable());
    assert(all.deep_view() =~= first + seq![
        mode_entry(),
        thinking_entry(),
        show_reasoning_entry(),
        ascii_entry(),
    ]);
    let ghost second = all.deep_view();
    if themes.len() > 0 {
        all.push(theme_editable(themes));
    }
    assert(all.deep_view() =~= second + if_any(t, theme_entry(t)));
    let ghost third = all.deep_view();
    all.push(sandbox_editable());
    all.push(sandbox_network_editable());
    assert(all.deep_view() =~= third + seq![sandbox_entry(), sandbox_network_entry()]);
    all
}

/// Why a setting could not be changed.
#[derive(Debug, PartialEq, Eq)]
pub enum EditError {
    Io { path: String, source: String },
    /// The file is no valid TOML, so it cannot be edited safely.
    Parse { path: String, source: String },
}

impl EditError {
    /// The message shown for the error.
    pub fn to_string(&self) -> (r: String)
        ensures
            r@ == match *self {
                EditError::Io { path, source } => path@ + ": "@ + source@,
                EditError::Parse { path, source } => path@
                    + " is not valid TOML, so it cannot be edited safely: "@ + source@,
            },
    {
        match self {
            EditError::Io { path, source } => {
                let mut r = path.clone();
                r.push_str(": ");
                r.push_str(source);
                r
            },
            EditError::Parse { path, source } => {
                let mut r = path.clone();
                r.push_str(" is not valid TOML, so it cannot be edited safely: ");
                r.push_str(source);
                r
            },
        }
    }
}

/// What a settings file has under a key.
#[derive(Debug, PartialEq, Eq)]
pub enum Stored {
    /// A string or a truth value.
    Value(Value),
    /// Anything else.
    Other,
}

/// What a [`Stored`] is.
pub enum StoredModel {
    Value(ValueModel),
    Other,
}

impl DeepView for Stored {
    type V = StoredModel;

    open spec fn deep_view(&self) -> StoredModel {
        match *self {
            Stored::Value(value) => StoredModel::Value(value.deep_view()),
            Stored::Other => StoredModel::Other,
        }
    }
}

/// What a text has under a top-level key, if it is a TOML document with that key.
pub uninterp spec fn toml_stored(text: Seq<char>, key: Seq<char>) -> Option<StoredModel>;

/// Parses with `toml_edit::DocumentMut` and calls `get`; the result depends on the
/// text and the key alone. A text that is no TOML has no key.
#[verifier::external_body]
fn toml_get(text: &str, key: &str) -> (r: Option<Stored>)
    ensures
        match r {
            Some(stored) => toml_stored(text@, key@) == Some(stored.deep_view()),
            None => toml_stored(text@, key@) is None,
        },
{
    let doc = text.parse::<toml_edit::DocumentMut>().ok()?;
    doc.get(key).map(|item| match item {
        toml_edit::Item::Value(toml_edit::Value::String(text)) => {
            Stored::Value(Value::Text(text.value().clone()))
        },
        toml_edit::Item::Value(toml_edit::Value::Boolean(value)) => {
            Stored::Value(Value::Bool(*value.value()))
        },
        _ => Stored::Other,
    })
}

/// Whether a text is a TOML document with this key at its top level.
pub open spec fn toml_has(text: Seq<char>, key: Seq<char>) -> bool {
    toml_stored(text, key) is Some
}

/// Whether two texts have the same under every top-level key but one.
pub open spec fn same_besides(edited: Seq<char>, text: Seq<char>, key: Seq<char>) -> bool {
    forall|other: Seq<char>|
        other != key ==> #[trigger] toml_stored(edited, other) == toml_stored(text, other)
}

/// Whether a line is a comment and nothing else.
pub open spec fn is_comment_line(line: Seq<char>) -> bool {
    begins(trim_start_of(line), "#"@)
}

/// Whether every comment that has a line to itself is a line of the edited text too.
pub open spec fn comments_kept(edited: Seq<char>, text: Seq<char>) -> bool {
    forall|i: int|
        0 <= i < lines_of(text).len() && is_comment_line(#[trigger] lines_of(text)[i])
            ==> lines_of(edited).contains(lines_of(text)[i])
}

/// Whether a key is not set, or set to a value on one line: a truth value, or a string
/// where no string of the text runs over several lines.
pub open spec fn plainly_set(text: Seq<char>, key: Seq<char>) -> bool {
    match toml_stored(text, key) {
        None => true,
        Some(StoredModel::Value(ValueModel::Bool(_))) => true,
        Some(StoredModel::Value(ValueModel::Text(_))) => find_text_of(text, "\"\"\""@) is None
            && find_text_of(text, "'''"@) is None,
        Some(StoredModel::Other) => false,
    }
}

/// How often a character stands at the end of a text.
pub open spec fn run_at_end(text: Seq<char>, c: char) -> nat
    decreases text.len(),
{
    if text.len() > 0 && text.last() == c {
        run_at_end(text.drop_last(), c) + 1
    } else {
        0
    }
}

/// Whether a character never stands more than 255 times in a row.
pub open spec fn short_runs(text: Seq<char>, c: char) -> bool {
    forall|n: int| 0 <= n <= text.len() ==> #[trigger] run_at_end(text.take(n), c) <= 255
}

/// Whether a value can be written: the writer counts quotes in a row in one byte.
pub open spec fn writable(value: ValueModel) -> bool {
    match value {
        ValueModel::Bool(_) => true,
        ValueModel::Text(text) => short_runs(text, '"') && short_runs(text, '\''),
    }
}

fn has_short_runs(text: &str, c: char) -> (r: bool)
    ensures
        r == short_runs(text@, c),
{
    let chars = chars_of(text);
    let mut run: usize = 0;
    let mut i: usize = 0;
    assert(text@.take(0) =~= Seq::<char>::empty());
    while i < chars.len()
        invariant
            i <= chars@.len(),
            chars@ == text@,
            run == run_at_end(text@.take(i as int), c),
            run <= 255,
            forall|n: int| 0 <= n <= i ==> #[trigger] run_at_end(text@.take(n), c) <= 255,
        decreases chars@.len() - i,
    {
        assert(text@.take(i + 1).drop_last() =~= text@.take(i as int));
        if chars[i] == c {
            run += 1;
        } else {
            run = 0;
        }
        if run > 255 {
            assert(run_at_end(text@.take(i + 1), c) > 255);
            return false;
        }
        i += 1;
    }
    true
}

impl Value {
    /// Whether the value can be written to a settings file.
    pub fn is_writable(&self) -> (r: bool)
        ensures
            r == writable(self.deep_view()),
    {
        match self {
            Value::Bool(_) => true,
            Value::Text(text) => has_short_runs(text, '"') && has_short_runs(text, '\''),
        }
    }
}

/// A TOML document with a top-level key set to a string, or the parser's message.
pub uninterp spec fn toml_with_text(
    text: Seq<char>,
    key: Seq<char>,
    value: Seq<char>,
) -> Result<Seq<char>, Seq<char>>;

/// Parses with `toml_edit::DocumentMut`, assigns a string to a top-level key and
/// writes the document out; the result depends on the three texts alone. The document
/// that comes out has the string under the key, and under every other top-level key
/// what it had before. Comments on lines of their own belong to what follows them, or
/// to the end of the document, and are written out with it; only what stood inside a
/// value that was replaced is lost. Left unsaid: where they stand, and that the layout
/// stays as it was. The writer counts the quotes in a row in a `u8`, which must not overflow.
#[verifier::external_body]
fn toml_set_text(text: &str, key: &str, value: &str) -> (r: Result<String, String>)
    requires
        writable(ValueModel::Text(value@)),
    ensures
        match r {
            Ok(edited) => {
                &&& toml_with_text(text@, key@, value@) == Ok::<_, Seq<char>>(edited@)
                &&& toml_stored(edited@, key@) == Some(
                    StoredModel::Value(ValueModel::Text(value@)),
                )
                &&& same_besides(edited@, text@, key@)
                &&& plainly_set(text@, key@) ==> comments_kept(edited@, text@)
            },
            Err(message) => toml_with_text(text@, key@, value@) == Err::<Seq<char>, _>(message@),
        },
{
    let mut doc = text.parse::<toml_edit::DocumentMut>().map_err(|error| error.to_string())?;
    doc[key] = toml_edit::value(value);
    Ok(doc.to_string())
}

/// A TOML document with a top-level key set to a truth value, or the parser's
/// message.
pub uninterp spec fn toml_with_bool(
    text: Seq<char>,
    key: Seq<char>,
    value: bool,
) -> Result<Seq<char>, Seq<char>>;

/// Parses with `toml_edit::DocumentMut`, assigns a truth value to a top-level key
/// and writes the document out; the result depends on the arguments alone. The document
/// that comes out has the truth value under the key, and under every other top-level
/// key what it had before. Comments on lines of their own are written out with what
/// follows them, or with the end of the document. Left unsaid: where they stand, and
/// that the layout stays as it was.
#[verifier::external_body]
fn toml_set_bool(text: &str, key: &str, value: bool) -> (r: Result<String, String>)
    ensures
        match r {
            Ok(edited) => {
                &&& toml_with_bool(text@, key@, value) == Ok::<_, Seq<char>>(edited@)
                &&& toml_stored(edited@, key@) == Some(StoredModel::Value(ValueModel::Bool(value)))
                &&& same_besides(edited@, text@, key@)
                &&& plainly_set(text@, key@) ==> comments_kept(edited@, text@)
            },
            Err(message) => toml_with_bool(text@, key@, value) == Err::<Seq<char>, _>(message@),
        },
{
    let mut doc = text.parse::<toml_edit::DocumentMut>().map_err(|error| error.to_string())?;
    doc[key] = toml_edit::value(value);
    Ok(doc.to_string())
}

/// The settings file at a root.
pub open spec fn file_at(root: Seq<char>) -> Seq<char> {
    joined(root, "settings.toml"@)
}

/// Whether the file at root `i` was readable and sets a key.
pub open spec fn sets_at(texts: Seq<Option<Seq<char>>>, i: int, key: Seq<char>) -> bool {
    0 <= i < texts.len() && texts[i] is Some && toml_has(texts[i]->0, key)
}

/// The first root from `i` on whose file sets a key.
pub open spec fn setter_from(
    roots: Seq<Seq<char>>,
    texts: Seq<Option<Seq<char>>>,
    key: Seq<char>,
    i: int,
) -> Option<int>
    decreases roots.len() - i,
{
    if i >= roots.len() {
        None
    } else if sets_at(texts, i, key) {
        Some(i)
    } else {
        setter_from(roots, texts, key, i + 1)
    }
}

/// The file a change is written to: the one that already sets the key, or that of
/// the most specific root.
pub open spec fn target_of(
    roots: Seq<Seq<char>>,
    texts: Seq<Option<Seq<char>>>,
    key: Seq<char>,
) -> Seq<char> {
    match setter_from(roots, texts, key, 0) {
        Some(i) => file_at(roots[i]),
        None => if roots.len() > 0 {
            file_at(roots.last())
        } else {
            "settings.toml"@
        },
    }
}

/// The texts of settings files, where they could be read.
pub open spec fn file_texts(texts: Seq<Option<String>>) -> Seq<Option<Seq<char>>> {
    Seq::new(texts.len(), |i: int| text_of(texts[i]))
}

/// Which file a change to `key` is written to. `texts` holds what the file at each
/// root says, where it could be read. Writing blindly to the project would shadow a
/// value that the user had set for every project.
pub fn target(roots: &[String], texts: &[Option<String>], key: &str) -> (r: String)
    ensures
        r@ == target_of(roots.deep_view(), file_texts(texts@), key@),
{
    let ghost all = roots.deep_view();
    let ghost files = file_texts(texts@);
    let mut i: usize = 0;
    while i < roots.len()
        invariant
            i <= roots@.len(),
            all == roots.deep_view(),
            files == file_texts(texts@),
            setter_from(all, files, key@, 0) == setter_from(all, files, key@, i as int),
        decreases roots@.len() - i,
    {
        let sets: bool = if i < texts.len() {
            match &texts[i] {
                Some(text) => toml_get(text, key).is_some(),
                None => false,
            }
        } else {
            false
        };
        assert(sets == sets_at(files, i as int, key@));
        if sets {
            assert(all[i as int] == roots@[i as int]@);
            return paths::join(&roots[i], "settings.toml");
        }
        i += 1;
    }
    if roots.len() > 0 {
        assert(all.last() == roots@[roots@.len() - 1]@);
        paths::join(&roots[roots.len() - 1], "settings.toml")
    } else {
        "settings.toml".to_owned()
    }
}

/// A document with a value set.
pub open spec fn toml_with(text: Seq<char>, key: Seq<char>, value: ValueModel) -> Result<
    Seq<char>,
    Seq<char>,
> {
    match value {
        ValueModel::Bool(value) => toml_with_bool(text, key, value),
        ValueModel::Text(value) => toml_with_text(text, key, value),
    }
}

/// The text a settings file has before an edit: its own, or the starter's where
/// there is none.
pub open spec fn text_or_template(text: Option<Seq<char>>) -> Seq<char> {
    match text {
        Some(text) => text,
        None => TEMPLATE@,
    }
}

/// What the settings file at `path` becomes when one top-level key is set: the key has
/// the value, every other key what it had, and no comment line is lost. `text` is what the file holds, or `None`
/// if there is no such file: then it is made from the starter. A file that is no TOML
/// is refused rather than overwritten.
pub fn set(path: &str, text: Option<&str>, key: &str, value: &Value) -> (r: Result<
    String,
    EditError,
>)
    requires
        writable(value.deep_view()),
    ensures
        ({
            let before = text_or_template(
                match text {
                    Some(text) => Some(text@),
                    None => None,
                },
            );
            match r {
                Ok(edited) => {
                    &&& toml_with(before, key@, value.deep_view()) == Ok::<_, Seq<char>>(edited@)
                    &&& toml_stored(edited@, key@) == Some(StoredModel::Value(value.deep_view()))
                    &&& same_besides(edited@, before, key@)
                    &&& plainly_set(before, key@) ==> comments_kept(edited@, before)
                },
                Err(EditError::Parse { path: p, source }) => p@ == path@ && toml_with(
                    before,
                    key@,
                    value.deep_view(),
                ) == Err::<Seq<char>, _>(source@),
                Err(EditError::Io { .. }) => false,
            }
        }),
{
    let before: &str = match text {
        Some(text) => text,
        None => TEMPLATE,
    };
    let edited = match value {
        Value::Bool(value) => toml_set_bool(before, key, *value),
        Value::Text(value) => toml_set_text(before, key, value),
    };
    match edited {
        Ok(edited) => Ok(edited),
        Err(source) => Err(EditError::Parse { path: path.to_owned(), source }),
    }
}

/// The spelling of an optional truth value.
pub open spec fn bool_of(value: Option<bool>) -> Option<Seq<char>> {
    match value {
        Some(value) => Some(bool_text(value)),
        None => None,
    }
}

/// The current value of a key, as the file would spell it.
pub open spec fn current_of(settings: SettingsModel, key: Seq<char>) -> Option<Seq<char>> {
    if key == "model"@ {
        settings.model
    } else if key == "mode"@ {
        match settings.mode {
            Some(mode) => Some(label_of(mode)),
            None => None,
        }
    } else if key == "thinking"@ {
        match settings.thinking {
            Some(thinking) => Some(thinking_label(thinking)),
            None => None,
        }
    } else if key == "show-reasoning"@ {
        bool_of(settings.show_reasoning)
    } else if key == "ascii"@ {
        bool_of(settings.ascii)
    } else if key == "theme"@ {
        settings.theme
    } else if key == "sandbox"@ {
        bool_of(settings.sandbox)
    } else if key == "sandbox-network"@ {
        bool_of(settings.sandbox_network)
    } else {
        None
    }
}

fn spell_optional(value: Option<bool>) -> (r: Option<String>)
    ensures
        text_of(r) == bool_of(value),
{
    match value {
        Some(value) => Some(spell(value)),
        None => None,
    }
}

/// The current value of `key` in the merged settings, as the file would spell it.
pub fn current(settings: &Settings, key: &str) -> (r: Option<String>)
    ensures
        text_of(r) == current_of(settings.deep_view(), key@),
{
    if same(key, "model") {
        settings.model.clone()
    } else if same(key, "mode") {
        match settings.mode {
            Some(mode) => Some(mode.label().to_owned()),
            None => None,
        }
    } else if same(key, "thinking") {
        match settings.thinking {
            Some(thinking) => Some(thinking.label()),
            None => None,
        }
    } else if same(key, "show-reasoning") {
        spell_optional(settings.show_reasoning)
    } else if same(key, "ascii") {
        spell_optional(settings.ascii)
    } else if same(key, "theme") {
        settings.theme.clone()
    } else if same(key, "sandbox") {
        spell_optional(settings.sandbox)
    } else if same(key, "sandbox-network") {
        spell_optional(settings.sandbox_network)
    } else {
        None
    }
}

} // verus!
