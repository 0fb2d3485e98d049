//! `settings.toml`, layered.
//!
//! The user's file supplies defaults and the project's overrides them, field by
//! field: a project that sets only `model` keeps the user's permission rules.

use vstd::prelude::*;

use crate::permission::PermissionMode;
use crate::text::{copy_texts, decimal, decimal_of, text_of};

verus! {

/// Filename at each root.
pub const SETTINGS_FILE: &'static str = "settings.toml";

/// How hard a model reasons.
#[derive(Debug, Clone, Copy, PartialEq, Eq, Structural)]
pub enum Thinking {
    /// Let the endpoint decide.
    Auto,
    Off,
    Low,
    Medium,
    High,
    /// A budget in tokens.
    Tokens(u32),
}

impl Default for Thinking {
    fn default() -> (r: Self)
        ensures
            r == Thinking::Auto,
    {
        Thinking::Auto
    }
}

/// How a level is spelled.
pub open spec fn thinking_label(thinking: Thinking) -> Seq<char> {
    match thinking {
        Thinking::Auto => "auto"@,
        Thinking::Off => "off"@,
        Thinking::Low => "low"@,
        Thinking::Medium => "medium"@,
        Thinking::High => "high"@,
        Thinking::Tokens(n) => decimal_of(n as nat),
    }
}

impl Thinking {
    /// How the level is spelled.
    pub fn label(self) -> (r: String)
        ensures
            r@ == thinking_label(self),
    {
        match self {
            Thinking::Auto => "auto".to_owned(),
            Thinking::Off => "off".to_owned(),
            Thinking::Low => "low".to_owned(),
            Thinking::Medium => "medium".to_owned(),
            Thinking::High => "high".to_owned(),
            Thinking::Tokens(n) => decimal(n as u64),
        }
    }

    /// Whether the model is asked not to reason.
    pub fn is_off(self) -> (r: bool)
        ensures
            r == (self is Off),
    {
        match self {
            Thinking::Off => true,
            _ => false,
        }
    }
}

/// Settings, every one of them optional, so that a partial file is valid.
#[derive(Debug, PartialEq, Eq)]
pub struct Settings {
    /// `provider/model`, or a bare name when unambiguous.
    pub model: Option<String>,
    /// Model for summarization, titles and classification.
    pub faster_model: Option<String>,
    pub mode: Option<PermissionMode>,
    pub thinking: Option<Thinking>,
    /// Show reasoning in the transcript.
    pub show_reasoning: Option<bool>,
    /// Run commands under OS containment.
    pub sandbox: Option<bool>,
    /// Allow outbound network from sandboxed commands.
    pub sandbox_network: Option<bool>,
    /// Force the ASCII glyph set.
    pub ascii: Option<bool>,
    /// The colour scheme.
    pub theme: Option<String>,
    pub permissions: Permissions,
}

/// `action(target)` rules, in the engine's three lists.
#[derive(Debug, PartialEq, Eq)]
pub struct Permissions {
    pub allow: Vec<String>,
    pub ask: Vec<String>,
    pub deny: Vec<String>,
}

/// What [`Settings`] hold.
pub struct SettingsModel {
    pub model: Option<Seq<char>>,
    pub faster_model: Option<Seq<char>>,
    pub mode: Option<PermissionMode>,
    pub thinking: Option<Thinking>,
    pub show_reasoning: Option<bool>,
    pub sandbox: Option<bool>,
    pub sandbox_network: Option<bool>,
    pub ascii: Option<bool>,
    pub theme: Option<Seq<char>>,
    pub permissions: PermissionsModel,
}

/// What [`Permissions`] hold.
pub struct PermissionsModel {
    pub allow: Seq<Seq<char>>,
    pub ask: Seq<Seq<char>>,
    pub deny: Seq<Seq<char>>,
}

impl DeepView for Permissions {
    type V = PermissionsModel;

    open spec fn deep_view(&self) -> PermissionsModel {
        PermissionsModel {
            allow: self.allow.deep_view(),
            ask: self.ask.deep_view(),
            deny: self.deny.deep_view(),
        }
    }
}

impl DeepView for Settings {
    type V = SettingsModel;

    open spec fn deep_view(&self) -> SettingsModel {
        SettingsModel {
            model: text_of(self.model),
            faster_model: text_of(self.faster_model),
            mode: self.mode,
            thinking: self.thinking,
            show_reasoning: self.show_reasoning,
            sandbox: self.sandbox,
            sandbox_network: self.sandbox_network,
            ascii: self.ascii,
            theme: text_of(self.theme),
            permissions: self.permissions.deep_view(),
        }
    }
}

/// No rules at all.
pub open spec fn no_permissions() -> PermissionsModel {
    PermissionsModel { allow: Seq::empty(), ask: Seq::empty(), deny: Seq::empty() }
}

/// Nothing set.
pub open spec fn no_settings() -> SettingsModel {
    SettingsModel {
        model: None,
        faster_model: None,
        mode: None,
        thinking: None,
        show_reasoning: None,
        sandbox: None,
        sandbox_network: None,
        ascii: None,
        theme: None,
        permissions: no_permissions(),
    }
}

impl Permissions {
    /// Whether there is no rule.
    pub fn is_empty(&self) -> (r: bool)
        ensures
            r == (self.deep_view() == no_permissions()),
    {
        let r = self.allow.len() == 0 && self.ask.len() == 0 && self.deny.len() == 0;
        proof {
            assert(self.allow.deep_view().len() == self.allow@.len());
            assert(self.ask.deep_view().len() == self.ask@.len());
            assert(self.deny.deep_view().len() == self.deny@.len());
            if r {
                assert(self.allow.deep_view() =~= Seq::<Seq<char>>::empty());
                assert(self.ask.deep_view() =~= Seq::<Seq<char>>::empty());
                assert(self.deny.deep_view() =~= Seq::<Seq<char>>::empty());
            }
        }
        r
    }
}

impl Default for Permissions {
    fn default() -> (r: Self)
        ensures
            r.deep_view() == no_permissions(),
    {
        let r = Permissions { allow: Vec::new(), ask: Vec::new(), deny: Vec::new() };
        assert(r.allow.deep_view() =~= Seq::<Seq<char>>::empty());
        assert(r.ask.deep_view() =~= Seq::<Seq<char>>::empty());
        assert(r.deny.deep_view() =~= Seq::<Seq<char>>::empty());
        r
    }
}

impl Clone for Permissions {
    fn clone(&self) -> (r: Self)
        ensures
            r.deep_view() == self.deep_view(),
    {
        Permissions {
            allow: copy_texts(&self.allow),
            ask: copy_texts(&self.ask),
            deny: copy_texts(&self.deny),
        }
    }
}

impl Default for Settings {
    fn default() -> (r: Self)
        ensures
            r.deep_view() == no_settings(),
    {
        Settings {
            model: None,
            faster_model: None,
            mode: None,
            thinking: None,
            show_reasoning: None,
            sandbox: None,
            sandbox_network: None,
            ascii: None,
            theme: None,
            permissions: Permissions::default(),
        }
    }
}

impl Clone for Settings {
    fn clone(&self) -> (r: Self)
        ensures
            r.deep_view() == self.deep_view(),
    {
        Settings {
            model: self.model.clone(),
            faster_model: self.faster_model.clone(),
            mode: self.mode,
            thinking: self.thinking,
            show_reasoning: self.show_reasoning,
            sandbox: self.sandbox,
            sandbox_network: self.sandbox_network,
            ascii: self.ascii,
            theme: self.theme.clone(),
            permissions: self.permissions.clone(),
        }
    }
}

/// What a later layer makes of a field: its own value, or what was there.
pub open spec fn over<T>(under: Option<T>, upper: Option<T>) -> Option<T> {
    if upper is Some {
        upper
    } else {
        under
    }
}

/// One layer of settings over another: field by field, with the rules of both.
pub open spec fn merged(under: SettingsModel, upper: SettingsModel) -> SettingsModel {
    SettingsModel {
        model: over(under.model, upper.model),
        faster_model: over(under.faster_model, upper.faster_model),
        mode: over(under.mode, upper.mode),
        thinking: over(under.thinking, upper.thinking),
        show_reasoning: over(under.show_reasoning, upper.show_reasoning),
        sandbox: over(under.sandbox, upper.sandbox),
        sandbox_network: over(under.sandbox_network, upper.sandbox_network),
        ascii: over(under.ascii, upper.ascii),
        theme: over(under.theme, upper.theme),
        permissions: PermissionsModel {
            allow: under.permissions.allow + upper.permissions.allow,
            ask: under.permissions.ask + upper.permissions.ask,
            deny: under.permissions.deny + upper.permissions.deny,
        },
    }
}

fn extend(list: &mut Vec<String>, more: Vec<String>)
    ensures
        final(list).deep_view() == old(list).deep_view() + more.deep_view(),
{
    let ghost before = list.deep_view();
    let ghost added = more.deep_view();
    let mut more = more;
    list.append(&mut more);
    assert(list.deep_view() =~= before + added);
}

/// What was found at one root.
#[derive(Debug)]
pub enum Layer {
    /// There is no file.
    Missing,
    /// The file, read.
    Loaded(Settings),
    /// The file could not be read.
    Unreadable { path: String, source: String },
    /// The file is no valid settings file.
    Malformed { path: String, source: String },
}

/// What is wrong with a settings file.
#[derive(Debug, PartialEq, Eq)]
pub enum SettingsError {
    Io { path: String, source: String },
    Parse { path: String, source: String },
}

/// The message shown for an error.
pub open spec fn settings_error_text(error: SettingsError) -> Seq<char> {
    match error {
        SettingsError::Io { path, source } => path@ + ": "@ + source@,
        SettingsError::Parse { path, source } => path@ + ": "@ + source@,
    }
}

impl SettingsError {
    /// The message shown for the error.
    pub fn to_string(&self) -> (r: String)
        ensures
            r@ == settings_error_text(*self),
    {
        match self {
            SettingsError::Io { path, source } | SettingsError::Parse { path, source } => {
                let mut r = path.clone();
                r.push_str(": ");
                r.push_str(source);
                r
            },
        }
    }
}

/// The layers that were read, merged in order.
pub open spec fn settings_of(layers: Seq<Layer>) -> SettingsModel
    decreases layers.len(),
{
    if layers.len() == 0 {
        no_settings()
    } else {
        let under = settings_of(layers.drop_last());
        match layers.last() {
            Layer::Loaded(settings) => merged(under, settings.deep_view()),
            _ => under,
        }
    }
}

/// What is reported: every file that could not be read, and every malformed one.
pub open spec fn layer_errors(layers: Seq<Layer>) -> Seq<SettingsError>
    decreases layers.len(),
{
    if layers.len() == 0 {
        Seq::empty()
    } else {
        let rest = layer_errors(layers.drop_last());
        match layers.last() {
            Layer::Unreadable { path, source } => rest.push(SettingsError::Io { path, source }),
            Layer::Malformed { path, source } => rest.push(SettingsError::Parse { path, source }),
            _ => rest,
        }
    }
}

impl Settings {
    /// Merges what was found at every root, least specific first. A malformed file
    /// is reported and skipped: it must not stop a session.
    pub fn load(layers: Vec<Layer>) -> (r: (Self, Vec<SettingsError>))
        ensures
            r.0.deep_view() == settings_of(layers@),
            r.1@ == layer_errors(layers@),
    {
        let ghost all = layers@;
        let mut settings = Settings::default();
        let mut errors: Vec<SettingsError> = Vec::new();
        let mut rest = layers;
        let ghost mut done: int = 0;
        assert(all.take(0) =~= Seq::<Layer>::empty());
        assert(all.skip(0) =~= all);
        while rest.len() > 0
            invariant
                0 <= done <= all.len(),
                rest@ == all.skip(done),
                settings.deep_view() == settings_of(all.take(done)),
                errors@ == layer_errors(all.take(done)),
            decreases rest@.len(),
        {
            let layer = rest.remove(0);
            assert(rest@ =~= all.skip(done + 1));
            assert(all.take(done + 1).drop_last() =~= all.take(done));
            assert(all.take(done + 1).last() == layer);
            match layer {
                Layer::Loaded(upper) => {
                    settings = settings.merge(upper);
                },
                Layer::Unreadable { path, source } => {
                    errors.push(SettingsError::Io { path, source });
                },
                Layer::Malformed { path, source } => {
                    errors.push(SettingsError::Parse { path, source });
                },
                Layer::Missing => {},
            }
            proof {
                done = done + 1;
            }
        }
        assert(all.take(done) =~= all);
        (settings, errors)
    }

    /// Overlays `other` on `self`, field by field; rules accumulate.
    pub fn merge(self, other: Self) -> (r: Self)
        ensures
            r.deep_view() == merged(self.deep_view(), other.deep_view()),
    {
        let mut permissions = self.permissions;
        extend(&mut permissions.allow, other.permissions.allow);
        extend(&mut permissions.ask, other.permissions.ask);
        extend(&mut permissions.deny, other.permissions.deny);
        Settings {
            model: if other.model.is_some() {
                other.model
            } else {
                self.model
            },
            faster_model: if other.faster_model.is_some() {
                other.faster_model
            } else {
                self.faster_model
            },
            mode: if other.mode.is_some() {
                other.mode
            } else {
                self.mode
            },
            thinking: if other.thinking.is_some() {
                other.thinking
            } else {
                self.thinking
            },
            show_reasoning: if other.show_reasoning.is_some() {
                other.show_reasoning
            } else {
                self.show_reasoning
            },
            sandbox: if other.sandbox.is_some() {
                other.sandbox
            } else {
                self.sandbox
            },
            sandbox_network: if other.sandbox_network.is_some() {
                other.sandbox_network
            } else {
                self.sandbox_network
            },
            ascii: if other.ascii.is_some() {
                other.ascii
            } else {
                self.ascii
            },
            theme: if other.theme.is_some() {
                other.theme
            } else {
                self.theme
            },
            permissions,
        }
    }
}

/// A commented starter file: every value is the default, commented out, so that it
/// documents what exists without changing anything.
pub const TEMPLATE: &'static str = "# octane settings. Project settings override ~/.octane/settings.toml,\n# field by field, so this file need only say what is project-specific.\n\n# model        = \"anthropic/sonnet\"   # `octane models` lists what is configured\n# faster-model = \"anthropic/haiku\"    # summaries, titles, classification\n# mode         = \"default\"            # default | plan | accept-edits | bypass\n# thinking     = \"auto\"               # auto | off | low | medium | high\n# show-reasoning = false\n# sandbox      = true                 # OS containment for shell commands\n# sandbox-network = false\n# ascii        = false                # force the ASCII glyph set\n\n# [permissions]\n# allow = [\"command(git status)\", \"command(cargo test)\"]\n# ask   = [\"command(*)\"]\n# deny  = [\"command(sudo)\", \"write_file(.git/)\"]\n";

} // verus!
