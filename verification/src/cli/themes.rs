//! Colour schemes: which there are, and making one to edit.

use vstd::prelude::*;

use crate::cli::startup::{Row, RowModel};
use crate::paths;
use crate::paths::{extension_is, file_name_of, joined, stem_of};
use crate::text::{among, copy_texts, hex, hex_of, join, join_of};
use crate::text_map::TextMap;

verus! {

/// Where colour schemes live under a config root, one a file.
pub const THEMES_DIR: &'static str = "themes";

/// The picker's one row that is no theme: no file is called so.
pub const NEW_THEME: &'static str = "*new";

/// The picker that asks which theme a new one starts from. It is no setting: nothing
/// writes it to a file.
pub const THEME_BASE: &'static str = "theme-base";

/// The roles a scheme can colour, as a file spells them.
pub open spec fn roles() -> Seq<Seq<char>> {
    seq![
        "surface"@,
        "onAccent"@,
        "user"@,
        "assistant"@,
        "reasoning"@,
        "tool"@,
        "success"@,
        "error"@,
        "warning"@,
        "dim"@,
        "accent"@,
        "code"@,
        "rail"@,
        "added"@,
        "removed"@,
    ]
}

/// The roles a scheme can colour.
pub fn role_names() -> (r: Vec<String>)
    ensures
        r.deep_view() == roles(),
{
    let mut r: Vec<String> = Vec::new();
    r.push("surface".to_owned());
    r.push("onAccent".to_owned());
    r.push("user".to_owned());
    r.push("assistant".to_owned());
    r.push("reasoning".to_owned());
    r.push("tool".to_owned());
    r.push("success".to_owned());
    r.push("error".to_owned());
    r.push("warning".to_owned());
    r.push("dim".to_owned());
    r.push("accent".to_owned());
    r.push("code".to_owned());
    r.push("rail".to_owned());
    r.push("added".to_owned());
    r.push("removed".to_owned());
    assert(r.deep_view() =~= roles());
    r
}

/// A colour.
#[derive(Debug, Clone, Copy, PartialEq, Eq, Structural)]
pub struct Rgb {
    pub red: u8,
    pub green: u8,
    pub blue: u8,
}

/// One role's line in a scheme's file.
pub open spec fn role_line(role: Seq<char>, colour: Option<Rgb>) -> Seq<char> {
    match colour {
        Some(rgb) => "  \""@ + role + "\": \"#"@ + hex_of(rgb.red as nat, 2) + hex_of(
            rgb.green as nat,
            2,
        ) + hex_of(rgb.blue as nat, 2) + "\""@,
        None => "  \""@ + role + "\": null"@,
    }
}

/// The lines of the roles that have a place among `colours`.
pub open spec fn role_lines(colours: Seq<Option<Rgb>>) -> Seq<Seq<char>> {
    Seq::new(
        if colours.len() < roles().len() {
            colours.len()
        } else {
            roles().len()
        },
        |i: int| role_line(roles()[i], colours[i]),
    )
}

/// A scheme's file. Every role stands in it: the file is the list of what can be
/// changed, and a role without a colour inherits.
pub open spec fn palette_text(colours: Seq<Option<Rgb>>) -> Seq<char> {
    "{\n"@ + join_of(role_lines(colours), ",\n"@) + "\n}\n"@
}

fn write_role(role: &str, colour: Option<Rgb>) -> (r: String)
    ensures
        r@ == role_line(role@, colour),
{
    let mut r = "  \"".to_owned();
    r.push_str(role);
    match colour {
        Some(rgb) => {
            r.push_str("\": \"#");
            r.push_str(&hex(rgb.red as u64, 2));
            r.push_str(&hex(rgb.green as u64, 2));
            r.push_str(&hex(rgb.blue as u64, 2));
            r.push_str("\"");
        },
        None => {
            r.push_str("\": null");
        },
    }
    r
}

/// A scheme's file, ready to be edited.
pub fn palette_file(colours: &Vec<Option<Rgb>>) -> (r: String)
    ensures
        r@ == palette_text(colours@),
{
    let names = role_names();
    let ghost wanted = role_lines(colours@);
    let mut body: Vec<String> = Vec::new();
    let mut i: usize = 0;
    assert(names@.len() == roles().len()) by {
        assert(names.deep_view().len() == names@.len());
    }
    while i < names.len() && i < colours.len()
        invariant
            i <= names@.len() == roles().len(),
            i <= colours@.len(),
            names.deep_view() == roles(),
            wanted == role_lines(colours@),
            body.deep_view() == wanted.take(i as int),
        decreases names@.len() - i,
    {
        let ghost before = body.deep_view();
        let line = write_role(&names[i], colours[i]);
        assert(roles()[i as int] == names@[i as int]@);
        body.push(line);
        assert(body.deep_view() =~= before.push(line@));
        assert(body.deep_view() =~= wanted.take(i + 1));
        i += 1;
    }
    assert(wanted.take(i as int) =~= wanted);
    let mut out = "{\n".to_owned();
    out.push_str(&join(&body, ",\n"));
    out.push_str("\n}\n");
    out
}

/// Whether a file can hold a scheme.
pub fn is_theme_file(path: &str) -> (r: bool)
    ensures
        r == extension_is(path@, "json"@),
{
    paths::has_extension_named(path, "json")
}

/// The name of the scheme that a file holds.
pub open spec fn theme_name_of(path: Seq<char>) -> Option<Seq<char>> {
    match file_name_of(path) {
        Some(name) => Some(stem_of(name)),
        None => None,
    }
}

/// The name of the scheme that a file holds.
pub fn theme_name(path: &str) -> (r: Option<String>)
    ensures
        crate::text::text_of(r) == theme_name_of(path@),
{
    match paths::file_name(path) {
        Some(name) => Some(paths::split_extension(&name).0),
        None => None,
    }
}

/// A file that can hold a scheme: where it is, and the scheme in it or what is wrong.
pub struct ThemeFile<P> {
    pub path: String,
    pub palette: Result<P, String>,
}

/// Schemes by name, and what went wrong.
pub struct Themes<P> {
    pub themes: Map<Seq<char>, P>,
    pub errors: Seq<Seq<char>>,
}

/// What is said of a file that would redefine a built-in.
pub open spec fn redefines_text(path: Seq<char>, name: Seq<char>) -> Seq<char> {
    path + ": `"@ + name + "` is a built-in theme and cannot be redefined; rename the file."@
}

/// What files define, each over those before it. A built-in cannot be redefined: a
/// cloned repository must not change what its name means.
pub open spec fn themes_of<P>(files: Seq<ThemeFile<P>>, built_in: Seq<Seq<char>>) -> Themes<P>
    decreases files.len(),
{
    if files.len() == 0 {
        Themes { themes: Map::empty(), errors: Seq::empty() }
    } else {
        let before = themes_of(files.drop_last(), built_in);
        let file = files.last();
        match theme_name_of(file.path@) {
            None => before,
            Some(name) => if built_in.contains(name) {
                Themes { errors: before.errors.push(redefines_text(file.path@, name)), ..before }
            } else {
                match file.palette {
                    Ok(palette) => Themes {
                        themes: before.themes.insert(name, palette),
                        ..before
                    },
                    Err(error) => Themes {
                        errors: before.errors.push(file.path@ + ": "@ + error@),
                        ..before
                    },
                }
            },
        }
    }
}

/// What files define. One that cannot be used is reported and passed over.
pub fn discover_themes<P>(files: Vec<ThemeFile<P>>, built_in: &Vec<String>) -> (r: (
    TextMap<P>,
    Vec<String>,
))
    ensures
        (Themes { themes: r.0@, errors: r.1.deep_view() }) == themes_of(
            files@,
            built_in.deep_view(),
        ),
{
    let ghost all = files@;
    let mut rest = files;
    let mut themes: TextMap<P> = TextMap::new();
    let mut errors: Vec<String> = Vec::new();
    let ghost mut done: int = 0;
    assert(all.skip(0) =~= all);
    assert(all.take(0) =~= Seq::<ThemeFile<P>>::empty());
    assert(errors.deep_view() =~= Seq::<Seq<char>>::empty());
    while rest.len() > 0
        invariant
            0 <= done <= all.len(),
            rest@ == all.skip(done),
            (Themes { themes: themes@, errors: errors.deep_view() }) == themes_of(
                all.take(done),
                built_in.deep_view(),
            ),
        decreases rest@.len(),
    {
        let ghost before = errors.deep_view();
        let file = rest.remove(0);
        assert(all.skip(done).drop_first() =~= all.skip(done + 1));
        assert(all.take(done + 1).drop_last() =~= all.take(done));
        assert(all.take(done + 1).last() == file);
        if let Some(name) = theme_name(&file.path) {
            if among(built_in, &name) {
                let mut text = file.path;
                text.push_str(": `");
                text.push_str(&name);
                text.push_str("` is a built-in theme and cannot be redefined; rename the file.");
                errors.push(text);
                assert(errors.deep_view() =~= before.push(text@));
            } else {
                match file.palette {
                    Ok(palette) => {
                        let _ = themes.insert(name, palette);
                    },
                    Err(error) => {
                        let mut text = file.path;
                        text.push_str(": ");
                        text.push_str(&error);
                        errors.push(text);
                        assert(errors.deep_view() =~= before.push(text@));
                    },
                }
            }
        }
        proof {
            done = done + 1;
        }
    }
    assert(all.take(done) =~= all);
    (themes, errors)
}

/// Every name the `theme` setting can take.
pub open spec fn choices_of<P>(built_in: Seq<Seq<char>>, customs: TextMap<P>) -> Seq<Seq<char>> {
    built_in + customs.keys_of()
}

/// Every name the `theme` setting can take: the built-ins, then what was found.
pub fn theme_choices<P>(built_in: &Vec<String>, customs: &TextMap<P>) -> (r: Vec<String>)
    ensures
        r.deep_view() == choices_of(built_in.deep_view(), *customs),
{
    let mut r = copy_texts(built_in);
    let ghost first = r.deep_view();
    let mut names = customs.keys();
    let ghost second = names.deep_view();
    r.append(&mut names);
    assert(r.deep_view() =~= first + second);
    r
}

/// A theme as a name resolves.
#[derive(Debug, PartialEq, Eq)]
pub enum Resolved<'a, P> {
    /// A built-in of that name.
    BuiltIn,
    /// One that was found.
    Custom(&'a P),
    Nothing,
}

/// What a [`Resolved`] is.
pub enum ResolvedModel<P> {
    BuiltIn,
    Custom(P),
    Nothing,
}

impl<'a, P> Resolved<'a, P> {
    /// What a name resolved to.
    pub open spec fn model(self) -> ResolvedModel<P> {
        match self {
            Resolved::BuiltIn => ResolvedModel::BuiltIn,
            Resolved::Custom(palette) => ResolvedModel::Custom(*palette),
            Resolved::Nothing => ResolvedModel::Nothing,
        }
    }
}

/// What a name resolves to.
pub open spec fn resolved_of<P>(
    name: Seq<char>,
    built_in: Seq<Seq<char>>,
    customs: Map<Seq<char>, P>,
) -> ResolvedModel<P> {
    if built_in.contains(name) {
        ResolvedModel::BuiltIn
    } else if customs.dom().contains(name) {
        ResolvedModel::Custom(customs[name])
    } else {
        ResolvedModel::Nothing
    }
}

/// What a configured name resolves to: a built-in before what was found.
pub fn resolve_theme<'a, P>(name: &str, built_in: &Vec<String>, customs: &'a TextMap<P>) -> (r:
    Resolved<'a, P>)
    ensures
        r.model() == resolved_of(name@, built_in.deep_view(), customs@),
{
    if among(built_in, name) {
        return Resolved::BuiltIn;
    }
    match customs.get(name) {
        Some(palette) => Resolved::Custom(palette),
        None => Resolved::Nothing,
    }
}

/// Where a copy of a theme goes, and its name.
#[derive(Debug, PartialEq, Eq)]
pub struct NewTheme {
    pub name: String,
    pub path: String,
}

/// Where a copy of a built-in goes: under the last root, which is the project's, so
/// that whoever clones the repository has the scheme its setting names. A theme that
/// is no built-in cannot be copied.
pub fn custom_theme(
    base: &str,
    built_in: &Vec<String>,
    roots: &Vec<String>,
    workspace: &str,
) -> (r: Result<NewTheme, String>)
    ensures
        match r {
            Ok(theme) => {
                &&& built_in.deep_view().contains(base@)
                &&& theme.name@ == base@ + "-custom"@
                &&& theme.path@ == joined(
                    joined(
                        if roots@.len() > 0 {
                            roots@[roots@.len() - 1]@
                        } else {
                            joined(workspace@, ".octane"@)
                        },
                        THEMES_DIR@,
                    ),
                    base@ + "-custom"@ + ".json"@,
                )
            },
            Err(error) => !built_in.deep_view().contains(base@) && error@ == base@
                + " is not a built-in theme"@,
        },
{
    if !among(built_in, base) {
        let mut error = base.to_owned();
        error.push_str(" is not a built-in theme");
        return Err(error);
    }
    let mut name = base.to_owned();
    name.push_str("-custom");
    let root = if roots.len() > 0 {
        roots[roots.len() - 1].clone()
    } else {
        paths::join(workspace, ".octane")
    };
    let mut file = name.clone();
    file.push_str(".json");
    let path = paths::join(&paths::join(&root, THEMES_DIR), &file);
    Ok(NewTheme { name, path })
}

/// What is said of a copy, new or already there. A file that is there is never
/// overwritten: it may hold somebody's edits.
pub fn custom_theme_note(path: &str, base: &str, exists: bool) -> (r: String)
    ensures
        r@ == (if exists {
            "`"@ + path@ + "` already exists; leaving it alone.\n"@
        } else {
            "Wrote `"@ + path@ + "`, a copy of `"@ + base@
                + "`.\n\nEdit any role and pick the theme again; a role left `null` inherits octane's.\n"@
        }),
{
    if exists {
        let mut r = "`".to_owned();
        r.push_str(path);
        r.push_str("` already exists; leaving it alone.\n");
        return r;
    }
    let mut r = "Wrote `".to_owned();
    r.push_str(path);
    r.push_str("`, a copy of `");
    r.push_str(base);
    r.push_str(
        "`.\n\nEdit any role and pick the theme again; a role left `null` inherits octane's.\n",
    );
    r
}

/// The names that are offered are those that resolve to a theme, and no others.
pub proof fn law_every_choice_resolves<P>(
    built_in: Seq<Seq<char>>,
    customs: TextMap<P>,
    name: Seq<char>,
)
    ensures
        choices_of(built_in, customs).contains(name) <==> !(resolved_of(
            name,
            built_in,
            customs@,
        ) is Nothing),
{
    customs.lemma_keys();
    let all = choices_of(built_in, customs);
    let keys = customs.keys_of();
    if all.contains(name) {
        let i = choose|i: int| 0 <= i < all.len() && all[i] == name;
        if i < built_in.len() {
            assert(built_in[i] == name);
        } else {
            assert(keys[i - built_in.len()] == name);
        }
    }
    if built_in.contains(name) {
        let i = choose|i: int| 0 <= i < built_in.len() && built_in[i] == name;
        assert(all[i] == name);
    }
    if keys.contains(name) {
        let i = choose|i: int| 0 <= i < keys.len() && keys[i] == name;
        assert(all[built_in.len() + i] == name);
    }
}

/// No file can redefine a built-in theme.
pub proof fn law_built_in_themes_stand<P>(
    files: Seq<ThemeFile<P>>,
    built_in: Seq<Seq<char>>,
    name: Seq<char>,
)
    requires
        built_in.contains(name),
    ensures
        !themes_of(files, built_in).themes.dom().contains(name),
    decreases files.len(),
{
    if files.len() > 0 {
        law_built_in_themes_stand(files.drop_last(), built_in, name);
    }
}

/// The rows of the themes that can be copied.
pub open spec fn base_rows(names: Seq<Seq<char>>) -> Seq<RowModel> {
    Seq::new(
        names.len(),
        |i: int|
            RowModel {
                key: names[i],
                label: names[i],
                detail: Seq::empty(),
                state: Seq::empty(),
                chosen: None,
            },
    )
}

/// The rows of the built-in themes, one of which a custom theme is copied from.
pub fn theme_base_picker(built_in: &Vec<String>) -> (r: Vec<Row>)
    ensures
        r.deep_view() == base_rows(built_in.deep_view()),
{
    let ghost wanted = base_rows(built_in.deep_view());
    let mut rows: Vec<Row> = Vec::new();
    let mut i: usize = 0;
    assert(rows.deep_view() =~= wanted.take(0));
    while i < built_in.len()
        invariant
            i <= built_in@.len(),
            wanted == base_rows(built_in.deep_view()),
            rows.deep_view() == wanted.take(i as int),
        decreases built_in@.len() - i,
    {
        let ghost before = rows.deep_view();
        let row = Row {
            key: built_in[i].clone(),
            label: built_in[i].clone(),
            detail: String::new(),
            state: String::new(),
            chosen: None,
        };
        assert(row.detail@ =~= Seq::<char>::empty());
        assert(row.state@ =~= Seq::<char>::empty());
        rows.push(row);
        assert(rows.deep_view() =~= before.push(row.deep_view()));
        assert(rows.deep_view() =~= wanted.take(i + 1));
        i += 1;
    }
    assert(wanted.take(i as int) =~= wanted);
    rows
}

} // verus!
