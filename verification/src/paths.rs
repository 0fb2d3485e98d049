//! Paths, compared component by component as on Unix.

use camino::Utf8Path;
use vstd::prelude::*;

use crate::text::{begins, chars_of, same, slice_of, split_of};

verus! {

/// The components of a path: the root, if it begins with `/`; a leading `.`; and
/// the names between the separators. Empty names and any other `.` are skipped.
pub open spec fn components_of(path: Seq<char>) -> Seq<Seq<char>> {
    let pieces = split_of(path, '/');
    let names = pieces.filter(|p: Seq<char>| p.len() > 0 && p != seq!['.']);
    if begins(path, seq!['/']) {
        seq![seq!['/']] + names
    } else if pieces[0] == seq!['.'] {
        seq![seq!['.']] + names
    } else {
        names
    }
}

/// Whether `path` is `base` or lies below it.
pub open spec fn within(base: Seq<char>, path: Seq<char>) -> bool {
    components_of(base).is_prefix_of(components_of(path))
}

/// Calls camino's `Utf8Path::starts_with`, which compares whole components and
/// never part of one. Stated for Unix, where `/` alone separates.
#[verifier::external_body]
pub(crate) fn starts_with(path: &str, base: &str) -> (r: bool)
    ensures
        r == within(base@, path@),
{
    Utf8Path::new(path).starts_with(base)
}

/// Calls camino's `Utf8Path::components` and writes each component out: `/` for
/// the root, `.` and `..` for those, a name for a name. Stated for Unix.
#[verifier::external_body]
pub(crate) fn components(path: &str) -> (r: Vec<String>)
    ensures
        r.deep_view() == components_of(path@),
{
    Utf8Path::new(path).components().map(|c| c.as_str().to_string()).collect()
}

/// Whether a component is the name of a file or directory.
pub open spec fn is_name(component: Seq<char>) -> bool {
    component != seq!['/'] && component != seq!['.'] && component != seq!['.', '.']
}

/// The file name of a path: its last component, if that is a name.
pub open spec fn file_name_of(path: Seq<char>) -> Option<Seq<char>> {
    let parts = components_of(path);
    if parts.len() > 0 && is_name(parts.last()) {
        Some(parts.last())
    } else {
        None
    }
}

/// The position of the last `.` in a name, or -1.
pub open spec fn last_dot(name: Seq<char>) -> int
    decreases name.len(),
{
    if name.len() == 0 {
        -1
    } else if name.last() == '.' {
        name.len() - 1
    } else {
        last_dot(name.drop_last())
    }
}

/// Whether a name has an extension: a `.` that is not its first character.
pub open spec fn has_extension(name: Seq<char>) -> bool {
    name != seq!['.', '.'] && last_dot(name) > 0
}

/// A name without its extension.
pub open spec fn stem_of(name: Seq<char>) -> Seq<char> {
    if has_extension(name) {
        name.take(last_dot(name))
    } else {
        name
    }
}

/// What follows the last `.` of a name, if that is an extension.
pub open spec fn extension_of(name: Seq<char>) -> Option<Seq<char>> {
    if has_extension(name) {
        Some(name.skip(last_dot(name) + 1))
    } else {
        None
    }
}

proof fn lemma_last_dot(name: Seq<char>)
    ensures
        -1 <= last_dot(name) < name.len(),
    decreases name.len(),
{
    if name.len() > 0 && name.last() != '.' {
        lemma_last_dot(name.drop_last());
    }
}

/// Splits a name into what stands before and after its extension's `.`.
pub fn split_extension(name: &str) -> (r: (String, Option<String>))
    ensures
        r.0@ == stem_of(name@),
        crate::text::text_of(r.1) == extension_of(name@),
{
    let chars = chars_of(name);
    let mut to: usize = chars.len();
    assert(name@.take(to as int) =~= name@);
    while to > 0 && chars[to - 1] != '.'
        invariant
            to <= chars@.len(),
            chars@ == name@,
            last_dot(name@) == last_dot(name@.take(to as int)),
        decreases to,
    {
        assert(name@.take(to as int).drop_last() =~= name@.take(to - 1));
        to -= 1;
    }
    proof {
        lemma_last_dot(name@);
    }
    let dots = chars.len() == 2 && chars[0] == '.' && chars[1] == '.';
    assert(dots == (name@ == seq!['.', '.'])) by {
        if dots {
            assert(name@ =~= seq!['.', '.']);
        }
    }
    assert(last_dot(name@) == to - 1);
    if dots || to <= 1 {
        (name.to_owned(), None)
    } else {
        let stem = slice_of(&chars, 0, to - 1);
        let extension = slice_of(&chars, to, chars.len());
        assert(stem@ =~= name@.take(to - 1));
        assert(extension@ =~= name@.skip(to as int));
        (stem, Some(extension))
    }
}

fn name_like(component: &str) -> (r: bool)
    ensures
        r == is_name(component@),
{
    proof {
        reveal_strlit("/");
        reveal_strlit(".");
        reveal_strlit("..");
        assert("/"@ =~= seq!['/']);
        assert("."@ =~= seq!['.']);
        assert(".."@ =~= seq!['.', '.']);
    }
    !same(component, "/") && !same(component, ".") && !same(component, "..")
}

/// The file name of a path.
pub fn file_name(path: &str) -> (r: Option<String>)
    ensures
        crate::text::text_of(r) == file_name_of(path@),
{
    let parts = components(path);
    let n: usize = parts.len();
    if n == 0 {
        return None;
    }
    assert(parts.deep_view()[n - 1] == parts@[n - 1]@);
    if name_like(&parts[n - 1]) {
        Some(parts[n - 1].clone())
    } else {
        None
    }
}

/// Whether the file name of a path ends in this extension.
pub open spec fn extension_is(path: Seq<char>, extension: Seq<char>) -> bool {
    file_name_of(path) matches Some(name) && extension_of(name) == Some(extension)
}

/// Tests [`extension_is`].
pub fn has_extension_named(path: &str, extension: &str) -> (r: bool)
    ensures
        r == extension_is(path@, extension@),
{
    match file_name(path) {
        Some(name) => match split_extension(&name).1 {
            Some(found) => same(&found, extension),
            None => false,
        },
        None => false,
    }
}

/// A directory and a path below it: an absolute path stands alone.
pub open spec fn joined(base: Seq<char>, path: Seq<char>) -> Seq<char> {
    if begins(path, seq!['/']) {
        path
    } else if base.len() == 0 || base.last() == '/' {
        base + path
    } else {
        base + seq!['/'] + path
    }
}

/// Calls camino's `Utf8Path::join`, which puts a separator between the two where
/// the first does not end in one; an absolute second path replaces the first.
/// Stated for Unix.
#[verifier::external_body]
pub(crate) fn join(base: &str, path: &str) -> (r: String)
    ensures
        r@ == joined(base@, path@),
{
    Utf8Path::new(base).join(path).into_string()
}

} // verus!
