//! Setting up a provider.

use vstd::prelude::*;

use crate::cli::startup::{Row, RowModel};
use crate::order::{key_fn, sort, sorted_by_key, Keyed};
use crate::text::{pad, pad_of, quoted, quoted_of, text_of};

verus! {

/// What a provider asks for.
#[derive(Debug, PartialEq, Eq)]
pub enum Credential {
    Nothing,
    TokenFile,
    /// A key in an environment variable.
    ApiKey { env_var: String },
}

/// What a [`Credential`] is.
pub enum CredentialModel {
    Nothing,
    TokenFile,
    ApiKey { env_var: Seq<char> },
}

impl DeepView for Credential {
    type V = CredentialModel;

    open spec fn deep_view(&self) -> CredentialModel {
        match *self {
            Credential::Nothing => CredentialModel::Nothing,
            Credential::TokenFile => CredentialModel::TokenFile,
            Credential::ApiKey { env_var } => CredentialModel::ApiKey { env_var: env_var@ },
        }
    }
}

/// A provider that can be set up.
#[derive(Debug)]
pub struct Recipe {
    pub key: String,
    pub name: String,
    pub help_url: String,
    pub note: Option<String>,
    pub credential: Credential,
    /// Whether what it asks for is there.
    pub ready: bool,
}

/// What a [`Recipe`] is.
pub struct RecipeModel {
    pub key: Seq<char>,
    pub name: Seq<char>,
    pub help_url: Seq<char>,
    pub note: Option<Seq<char>>,
    pub credential: CredentialModel,
    pub ready: bool,
}

impl DeepView for Recipe {
    type V = RecipeModel;

    open spec fn deep_view(&self) -> RecipeModel {
        RecipeModel {
            key: self.key@,
            name: self.name@,
            help_url: self.help_url@,
            note: text_of(self.note),
            credential: self.credential.deep_view(),
            ready: self.ready,
        }
    }
}

/// How a provider's credential stands.
pub open spec fn state_of(recipe: RecipeModel) -> Seq<char> {
    match recipe.credential {
        CredentialModel::Nothing => "ready"@,
        CredentialModel::TokenFile => "needs a token file"@,
        CredentialModel::ApiKey { env_var } => if recipe.ready {
            env_var + " is set"@
        } else {
            "needs "@ + env_var
        },
    }
}

/// How a provider's credential stands.
pub fn credential_state(recipe: &Recipe) -> (r: String)
    ensures
        r@ == state_of(recipe.deep_view()),
{
    match &recipe.credential {
        Credential::Nothing => "ready".to_owned(),
        Credential::TokenFile => "needs a token file".to_owned(),
        Credential::ApiKey { env_var } => if recipe.ready {
            let mut r = env_var.clone();
            r.push_str(" is set");
            r
        } else {
            let mut r = "needs ".to_owned();
            r.push_str(env_var);
            r
        },
    }
}

/// A provider's row in the picker.
pub open spec fn recipe_row(recipe: RecipeModel) -> RowModel {
    RowModel {
        key: recipe.key,
        label: recipe.name,
        detail: recipe.help_url,
        state: state_of(recipe),
        chosen: None,
    }
}

impl Keyed for Row {
    open spec fn key_of(&self) -> Seq<char> {
        self.label@
    }

    fn key(&self) -> (r: &str) {
        &self.label
    }
}

/// What the rows of a list are.
pub open spec fn row_models(rows: Seq<Row>) -> Seq<RowModel> {
    Seq::new(rows.len(), |i: int| rows[i].deep_view())
}

/// The label by which rows are put in order.
pub open spec fn row_key() -> spec_fn(RowModel) -> Seq<char> {
    |row: RowModel| row.label
}

/// The rows of the providers that are ready, or of those that are not.
pub open spec fn rows_where(recipes: Seq<RecipeModel>, ready: bool) -> Seq<RowModel>
    decreases recipes.len(),
{
    if recipes.len() == 0 {
        Seq::empty()
    } else if recipes.last().ready == ready {
        rows_where(recipes.drop_last(), ready).push(recipe_row(recipes.last()))
    } else {
        rows_where(recipes.drop_last(), ready)
    }
}

/// The picker's rows: the providers that will work first, each group by name.
pub open spec fn connect_rows_of(recipes: Seq<RecipeModel>) -> Seq<RowModel> {
    sorted_by_key(rows_where(recipes, true), row_key()) + sorted_by_key(
        rows_where(recipes, false),
        row_key(),
    )
}

fn pick_rows(recipes: &Vec<Recipe>, ready: bool) -> (r: Vec<Row>)
    ensures
        row_models(r@) == rows_where(recipes.deep_view(), ready),
{
    let ghost all = recipes.deep_view();
    let mut r: Vec<Row> = Vec::new();
    let mut i: usize = 0;
    assert(row_models(r@) =~= Seq::<RowModel>::empty());
    while i < recipes.len()
        invariant
            i <= recipes@.len(),
            all == recipes.deep_view(),
            row_models(r@) == rows_where(all.take(i as int), ready),
        decreases recipes@.len() - i,
    {
        let recipe = &recipes[i];
        let ghost before = row_models(r@);
        assert(all.take(i + 1).drop_last() =~= all.take(i as int));
        assert(all.take(i + 1).last() == recipe.deep_view());
        if recipe.ready == ready {
            let row = Row {
                key: recipe.key.clone(),
                label: recipe.name.clone(),
                detail: recipe.help_url.clone(),
                state: credential_state(recipe),
                chosen: None,
            };
            r.push(row);
            assert(row_models(r@) =~= before.push(row.deep_view()));
        }
        i += 1;
    }
    assert(all.take(i as int) =~= all);
    r
}

fn sort_rows(rows: Vec<Row>) -> (r: Vec<Row>)
    ensures
        row_models(r@) == sorted_by_key(row_models(rows@), row_key()),
{
    let ghost found = rows@;
    let sorted = sort(rows);
    proof {
        crate::order::lemma_sorted_map(
            found,
            |row: Row| row.deep_view(),
            key_fn::<Row>(),
            row_key(),
        );
        assert(row_models(found) =~= found.map_values(|row: Row| row.deep_view()));
        assert(row_models(sorted@) =~= sorted@.map_values(|row: Row| row.deep_view()));
    }
    sorted
}

/// The rows of the picker that connects a provider. All can be chosen: writing the
/// file first and exporting the key second is a fair order.
pub fn connect_rows(recipes: &Vec<Recipe>) -> (r: Vec<Row>)
    ensures
        row_models(r@) == connect_rows_of(recipes.deep_view()),
{
    let mut r = sort_rows(pick_rows(recipes, true));
    let ghost first = row_models(r@);
    let mut rest = sort_rows(pick_rows(recipes, false));
    let ghost second = row_models(rest@);
    r.append(&mut rest);
    assert(row_models(r@) =~= first + second);
    r
}

/// The lines of the providers.
pub open spec fn recipe_lines(recipes: Seq<RecipeModel>) -> Seq<char>
    decreases recipes.len(),
{
    if recipes.len() == 0 {
        Seq::empty()
    } else {
        recipe_lines(recipes.drop_last()) + "  "@ + pad_of(recipes.last().key, 12) + " "@ + pad_of(
            recipes.last().name,
            22,
        ) + " "@ + state_of(recipes.last()) + "\n"@
    }
}

/// The providers that can be set up.
pub open spec fn connect_text(recipes: Seq<RecipeModel>) -> Seq<char> {
    "Providers octane can set up:\n\n"@ + recipe_lines(recipes)
        + "\n  octane connect <name>          write .octane/providers/<name>.json\n  octane connect <name> --user   write it to ~/.octane instead\n"@
}

/// Lists the providers that can be set up.
pub fn render_connect_list(recipes: &Vec<Recipe>) -> (r: String)
    ensures
        r@ == connect_text(recipes.deep_view()),
{
    let ghost all = recipes.deep_view();
    let mut out = "Providers octane can set up:\n\n".to_owned();
    let mut i: usize = 0;
    assert(out@ + recipe_lines(all.take(0)) =~= out@);
    while i < recipes.len()
        invariant
            i <= recipes@.len(),
            all == recipes.deep_view(),
            out@ == "Providers octane can set up:\n\n"@ + recipe_lines(all.take(i as int)),
        decreases recipes@.len() - i,
    {
        assert(all.take(i + 1).drop_last() =~= all.take(i as int));
        assert(all.take(i + 1).last() == recipes@[i as int].deep_view());
        out.push_str("  ");
        out.push_str(&pad(&recipes[i].key, 12));
        out.push_str(" ");
        out.push_str(&pad(&recipes[i].name, 22));
        out.push_str(" ");
        out.push_str(&credential_state(&recipes[i]));
        out.push_str("\n");
        assert(out@ =~= "Providers octane can set up:\n\n"@ + recipe_lines(all.take(i + 1)));
        i += 1;
    }
    assert(all.take(i as int) =~= all);
    out.push_str(
        "\n  octane connect <name>          write .octane/providers/<name>.json\n  octane connect <name> --user   write it to ~/.octane instead\n",
    );
    out
}

/// What is said of a provider that nobody knows, on the command line.
pub fn unknown_provider(key: &str) -> (r: String)
    ensures
        r@ == "unknown provider "@ + quoted_of(key@)
            + ". Run `octane connect` to see what is available."@,
{
    let mut r = "unknown provider ".to_owned();
    r.push_str(&quoted(key));
    r.push_str(". Run `octane connect` to see what is available.");
    r
}

/// The models that a provider's file names, by key.
pub open spec fn printed_models(key: Seq<char>, models: Seq<(Seq<char>, Seq<char>)>) -> Seq<char>
    decreases models.len(),
{
    if models.len() == 0 {
        Seq::empty()
    } else {
        printed_models(key, models.drop_last()) + "  "@ + key + "/"@ + pad_of(
            models.last().0,
            12,
        ) + " "@ + models.last().1 + "\n"@
    }
}

/// What is said of the credential on the command line. The file refers to the
/// variable, so it can be committed; unsaid, people paste keys in.
pub open spec fn printed_credential(recipe: RecipeModel) -> Seq<char> {
    match recipe.credential {
        CredentialModel::ApiKey { env_var } => "\n"@ + (if recipe.ready {
            "  "@ + env_var + " is set.\n"@
        } else {
            "  Set "@ + env_var + " to finish:\n    export "@ + env_var + "=...        # "@
                + recipe.help_url
                + "\n\n  The file references the variable rather than storing the key,\n  so it is safe to commit.\n"@
        }),
        _ => Seq::empty(),
    }
}

/// What is printed when a provider was set up.
pub open spec fn connected_text(
    recipe: RecipeModel,
    path: Seq<char>,
    models: Seq<(Seq<char>, Seq<char>)>,
) -> Seq<char> {
    "Wrote "@ + path + "\n\n"@ + printed_models(recipe.key, models) + printed_credential(recipe) + (
    match recipe.note {
        Some(note) => "\n  Note: "@ + note + "\n"@,
        None => Seq::empty(),
    })
}

fn print_models(key: &str, models: &Vec<(String, String)>) -> (r: String)
    ensures
        r@ == printed_models(key@, models.deep_view()),
{
    let ghost all = models.deep_view();
    let mut out = String::new();
    let mut i: usize = 0;
    while i < models.len()
        invariant
            i <= models@.len(),
            all == models.deep_view(),
            out@ == printed_models(key@, all.take(i as int)),
        decreases models@.len() - i,
    {
        assert(all.take(i + 1).drop_last() =~= all.take(i as int));
        assert(all.take(i + 1).last() == models@[i as int].deep_view());
        out.push_str("  ");
        out.push_str(key);
        out.push_str("/");
        out.push_str(&pad(&models[i].0, 12));
        out.push_str(" ");
        out.push_str(&models[i].1);
        out.push_str("\n");
        i += 1;
    }
    assert(all.take(i as int) =~= all);
    out
}

fn print_credential(recipe: &Recipe) -> (r: String)
    ensures
        r@ == printed_credential(recipe.deep_view()),
{
    match &recipe.credential {
        Credential::ApiKey { env_var } => {
            let mut out = "\n".to_owned();
            if recipe.ready {
                out.push_str("  ");
                out.push_str(env_var);
                out.push_str(" is set.\n");
                assert(out@ =~= "\n"@ + ("  "@ + env_var@ + " is set.\n"@));
            } else {
                out.push_str("  Set ");
                out.push_str(env_var);
                out.push_str(" to finish:\n    export ");
                out.push_str(env_var);
                out.push_str("=...        # ");
                out.push_str(&recipe.help_url);
                out.push_str(
                    "\n\n  The file references the variable rather than storing the key,\n  so it is safe to commit.\n",
                );
                assert(out@ =~= "\n"@ + ("  Set "@ + env_var@ + " to finish:\n    export "@
                    + env_var@ + "=...        # "@ + recipe.help_url@
                    + "\n\n  The file references the variable rather than storing the key,\n  so it is safe to commit.\n"@));
            }
            out
        },
        _ => {
            let out = String::new();
            assert(out@ =~= Seq::<char>::empty());
            out
        },
    }
}

/// What is printed when a provider was set up: where its file is, what models it
/// names, and what remains to be done.
pub fn connected(recipe: &Recipe, path: &str, models: &Vec<(String, String)>) -> (r: String)
    ensures
        r@ == connected_text(recipe.deep_view(), path@, models.deep_view()),
{
    let mut out = "Wrote ".to_owned();
    out.push_str(path);
    out.push_str("\n\n");
    out.push_str(&print_models(&recipe.key, models));
    out.push_str(&print_credential(recipe));
    let ghost before = out@;
    match &recipe.note {
        Some(note) => {
            out.push_str("\n  Note: ");
            out.push_str(note);
            out.push_str("\n");
            assert(out@ =~= before + ("\n  Note: "@ + note@ + "\n"@));
        },
        None => {
            assert(before + Seq::<char>::empty() =~= before);
        },
    }
    out
}

/// The models that a provider's file names, for the transcript.
pub open spec fn said_models(key: Seq<char>, models: Seq<(Seq<char>, Seq<char>)>) -> Seq<char>
    decreases models.len(),
{
    if models.len() == 0 {
        Seq::empty()
    } else {
        said_models(key, models.drop_last()) + "- `"@ + key + "/"@ + models.last().0 + "` — "@
            + models.last().1 + "\n"@
    }
}

/// What is said of the credential in the transcript.
pub open spec fn said_credential(recipe: RecipeModel) -> Seq<char> {
    match recipe.credential {
        CredentialModel::ApiKey { env_var } => "\n"@ + (if recipe.ready {
            "`"@ + env_var + "` is set.\n"@
        } else {
            "Set `"@ + env_var + "` to finish:\n\n```\nexport "@ + env_var
                + "=...\n```\n\nGet one at "@ + recipe.help_url
                + "\n\nThe file references the variable rather than storing the key, so it is safe to commit.\n"@
        }),
        _ => Seq::empty(),
    }
}

/// What is said in the transcript when a provider was set up.
pub open spec fn connected_report_text(
    recipe: RecipeModel,
    path: Seq<char>,
    models: Seq<(Seq<char>, Seq<char>)>,
) -> Seq<char> {
    "Wrote `"@ + path + "`\n\n"@ + said_models(recipe.key, models) + said_credential(recipe) + (
    match recipe.note {
        Some(note) => "\n> "@ + note + "\n"@,
        None => Seq::empty(),
    })
}

fn say_models(key: &str, models: &Vec<(String, String)>) -> (r: String)
    ensures
        r@ == said_models(key@, models.deep_view()),
{
    let ghost all = models.deep_view();
    let mut out = String::new();
    let mut i: usize = 0;
    while i < models.len()
        invariant
            i <= models@.len(),
            all == models.deep_view(),
            out@ == said_models(key@, all.take(i as int)),
        decreases models@.len() - i,
    {
        assert(all.take(i + 1).drop_last() =~= all.take(i as int));
        assert(all.take(i + 1).last() == models@[i as int].deep_view());
        out.push_str("- `");
        out.push_str(key);
        out.push_str("/");
        out.push_str(&models[i].0);
        out.push_str("` — ");
        out.push_str(&models[i].1);
        out.push_str("\n");
        i += 1;
    }
    assert(all.take(i as int) =~= all);
    out
}

fn say_credential(recipe: &Recipe) -> (r: String)
    ensures
        r@ == said_credential(recipe.deep_view()),
{
    match &recipe.credential {
        Credential::ApiKey { env_var } => {
            let mut out = "\n".to_owned();
            if recipe.ready {
                out.push_str("`");
                out.push_str(env_var);
                out.push_str("` is set.\n");
                assert(out@ =~= "\n"@ + ("`"@ + env_var@ + "` is set.\n"@));
            } else {
                out.push_str("Set `");
                out.push_str(env_var);
                out.push_str("` to finish:\n\n```\nexport ");
                out.push_str(env_var);
                out.push_str("=...\n```\n\nGet one at ");
                out.push_str(&recipe.help_url);
                out.push_str(
                    "\n\nThe file references the variable rather than storing the key, so it is safe to commit.\n",
                );
                assert(out@ =~= "\n"@ + ("Set `"@ + env_var@ + "` to finish:\n\n```\nexport "@
                    + env_var@ + "=...\n```\n\nGet one at "@ + recipe.help_url@
                    + "\n\nThe file references the variable rather than storing the key, so it is safe to commit.\n"@));
            }
            out
        },
        _ => {
            let out = String::new();
            assert(out@ =~= Seq::<char>::empty());
            out
        },
    }
}

/// What is said in the transcript when a provider was set up.
pub fn connect_provider(recipe: &Recipe, path: &str, models: &Vec<(String, String)>) -> (r: String)
    ensures
        r@ == connected_report_text(recipe.deep_view(), path@, models.deep_view()),
{
    let mut out = "Wrote `".to_owned();
    out.push_str(path);
    out.push_str("`\n\n");
    out.push_str(&say_models(&recipe.key, models));
    out.push_str(&say_credential(recipe));
    let ghost before = out@;
    match &recipe.note {
        Some(note) => {
            out.push_str("\n> ");
            out.push_str(note);
            out.push_str("\n");
            assert(out@ =~= before + ("\n> "@ + note@ + "\n"@));
        },
        None => {
            assert(before + Seq::<char>::empty() =~= before);
        },
    }
    out
}

/// The providers that are ready come before those that are not.
pub proof fn law_ready_providers_come_first(recipes: Seq<RecipeModel>)
    ensures
        ({
            let n = rows_where(recipes, true).len() as int;
            let rows = connect_rows_of(recipes);
            &&& 0 <= n <= rows.len()
            &&& rows.len() == recipes.len()
            &&& rows.take(n).to_multiset() == rows_where(recipes, true).to_multiset()
            &&& rows.skip(n).to_multiset() == rows_where(recipes, false).to_multiset()
        }),
{
    let ready = rows_where(recipes, true);
    let rest = rows_where(recipes, false);
    crate::order::law_sorting(ready, row_key());
    crate::order::law_sorting(rest, row_key());
    let rows = connect_rows_of(recipes);
    let n = ready.len() as int;
    ready.to_multiset_ensures();
    rest.to_multiset_ensures();
    sorted_by_key(ready, row_key()).to_multiset_ensures();
    sorted_by_key(rest, row_key()).to_multiset_ensures();
    assert(rows.take(n) =~= sorted_by_key(ready, row_key()));
    assert(rows.skip(n) =~= sorted_by_key(rest, row_key()));
    lemma_rows_split(recipes);
}

proof fn lemma_rows_split(recipes: Seq<RecipeModel>)
    ensures
        rows_where(recipes, true).len() + rows_where(recipes, false).len() == recipes.len(),
    decreases recipes.len(),
{
    if recipes.len() > 0 {
        lemma_rows_split(recipes.drop_last());
    }
}

} // verus!
