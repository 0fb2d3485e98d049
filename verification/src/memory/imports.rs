//! `@path` imports: a memory file can point at documentation instead of copying it.
//!
//! Bounded on three axes, since this is file inclusion driven by what a repository
//! holds: depth, repetition, and escaping the root.

use vstd::prelude::*;

use crate::paths;
use crate::paths::{components_of, joined, within};
use crate::text::{
    among, chars_of, is_white, join, join_of, lines, lines_of, same, slice_of, starts_with, text_of,
    trim, trim_end, trim_end_of, trim_of, white,
};
use crate::text_map::TextMap;

verus! {

/// Nesting limit.
pub const MAX_IMPORT_DEPTH: usize = 3;

/// What a line that is only an `@path` reference refers to. Anything else on the
/// line, or an absolute path, makes it prose.
pub open spec fn import_of(line: Seq<char>) -> Option<Seq<char>> {
    let trimmed = trim_of(line);
    let target = trimmed.skip(1);
    if trimmed.len() < 2 || trimmed[0] != '@' || target[0] == '/' || exists|i: int|
        0 <= i < target.len() && is_white(#[trigger] target[i]) {
        None
    } else {
        Some(target)
    }
}

/// Recognizes a line that is only an `@path` reference.
pub fn parse_import(line: &str) -> (r: Option<String>)
    ensures
        text_of(r) == import_of(line@),
{
    let trimmed = trim(line);
    let chars = chars_of(&trimmed);
    let ghost target = trimmed@.skip(1);
    assert(chars@.len() > 1 ==> target[0] == chars@[1]);
    if chars.len() < 2 || chars[0] != '@' || chars[1] == '/' {
        return None;
    }
    let mut i: usize = 1;
    while i < chars.len()
        invariant
            1 <= i <= chars@.len(),
            chars@ == trimmed@,
            trimmed@ == trim_of(line@),
            target == trimmed@.skip(1),
            forall|k: int| 0 <= k < i - 1 ==> !is_white(#[trigger] target[k]),
        decreases chars@.len() - i,
    {
        assert(target[i - 1] == chars@[i as int]);
        if white(chars[i]) {
            return None;
        }
        i += 1;
    }
    let r = slice_of(&chars, 1, chars.len());
    assert(r@ =~= target);
    Some(r)
}

/// The components of a path with `.` and `..` resolved, without asking the file
/// system: a link must not lead out of the root after the root was checked.
pub open spec fn resolved_parts(parts: Seq<Seq<char>>) -> Seq<Seq<char>>
    decreases parts.len(),
{
    if parts.len() == 0 {
        Seq::empty()
    } else {
        let before = resolved_parts(parts.drop_last());
        let part = parts.last();
        if part == ".."@ {
            if before.len() == 0 || before.last() == "/"@ {
                before
            } else {
                before.drop_last()
            }
        } else if part == "."@ {
            before
        } else {
            before.push(part)
        }
    }
}

/// Components written as a path.
pub open spec fn path_text(parts: Seq<Seq<char>>) -> Seq<char> {
    if parts.len() > 0 && parts[0] == "/"@ {
        "/"@ + join_of(parts.drop_first(), "/"@)
    } else {
        join_of(parts, "/"@)
    }
}

/// A path with `.` and `..` resolved.
pub open spec fn normal_path(path: Seq<char>) -> Seq<char> {
    path_text(resolved_parts(components_of(path)))
}

/// The directory of a path with these components, or `root` where there is none.
pub open spec fn parent_text(parts: Seq<Seq<char>>, root: Seq<char>) -> Seq<char> {
    if parts.len() == 0 || parts.last() == "/"@ {
        root
    } else {
        path_text(parts.drop_last())
    }
}

fn normal_parts(path: &str) -> (r: Vec<String>)
    ensures
        r.deep_view() == resolved_parts(components_of(path@)),
{
    let all = paths::components(path);
    let ghost parts = all.deep_view();
    let mut out: Vec<String> = Vec::new();
    let mut i: usize = 0;
    assert(parts.take(0) =~= Seq::<Seq<char>>::empty());
    assert(out.deep_view() =~= Seq::<Seq<char>>::empty());
    while i < all.len()
        invariant
            i <= all@.len(),
            parts == all.deep_view(),
            out.deep_view() == resolved_parts(parts.take(i as int)),
        decreases all@.len() - i,
    {
        let ghost before = out.deep_view();
        assert(parts.take(i + 1).drop_last() =~= parts.take(i as int));
        assert(parts.take(i + 1).last() == all@[i as int]@);
        if same(&all[i], "..") {
            if out.len() > 0 {
                let n: usize = out.len();
                assert(before.last() == out@[n - 1]@);
                if !same(&out[n - 1], "/") {
                    let _ = out.pop();
                    assert(out.deep_view() =~= before.drop_last());
                }
            }
        } else if !same(&all[i], ".") {
            out.push(all[i].clone());
            assert(out.deep_view() =~= before.push(all@[i as int]@));
        }
        i += 1;
    }
    assert(parts.take(i as int) =~= parts);
    out
}

fn write_path(parts: &Vec<String>) -> (r: String)
    ensures
        r@ == path_text(parts.deep_view()),
{
    let ghost all = parts.deep_view();
    if parts.len() > 0 && same(&parts[0], "/") {
        assert(all[0] == parts@[0]@);
        let mut rest: Vec<String> = Vec::new();
        let mut i: usize = 1;
        while i < parts.len()
            invariant
                1 <= i <= parts@.len(),
                all == parts.deep_view(),
                rest.deep_view() == all.subrange(1, i as int),
            decreases parts@.len() - i,
        {
            let ghost before = rest.deep_view();
            rest.push(parts[i].clone());
            assert(rest.deep_view() =~= before.push(all[i as int]));
            assert(rest.deep_view() =~= all.subrange(1, i + 1));
            i += 1;
        }
        assert(rest.deep_view() =~= all.drop_first());
        let mut r = "/".to_owned();
        r.push_str(&join(&rest, "/"));
        r
    } else {
        if parts.len() > 0 {
            assert(all[0] == parts@[0]@);
        }
        join(parts, "/")
    }
}

/// Resolves `.` and `..` without asking the file system.
pub fn normalize(path: &str) -> (r: String)
    ensures
        r@ == normal_path(path@),
{
    write_path(&normal_parts(path))
}

fn parent(parts: Vec<String>, root: &str) -> (r: String)
    ensures
        r@ == parent_text(parts.deep_view(), root@),
{
    let ghost all = parts.deep_view();
    let mut parts = parts;
    match parts.pop() {
        Some(last) => {
            assert(all.last() == last@);
            if same(&last, "/") {
                return root.to_owned();
            }
            assert(parts.deep_view() =~= all.drop_last());
            write_path(&parts)
        },
        None => root.to_owned(),
    }
}

/// What comes of resolving: the text and the files it was made from, or the one
/// file that has to be read first.
pub enum Outcome {
    Needs(Seq<char>),
    Done { text: Seq<char>, imported: Seq<Seq<char>> },
}

/// An outcome with text in front of it.
pub open spec fn prefixed(text: Seq<char>, outcome: Outcome) -> Outcome {
    match outcome {
        Outcome::Needs(path) => Outcome::Needs(path),
        Outcome::Done { text: rest, imported } => Outcome::Done { text: text + rest, imported },
    }
}

/// An imported text, fenced with its path.
pub open spec fn fenced_import(path: Seq<char>, text: Seq<char>) -> Seq<char> {
    "<imported path=\""@ + path + "\">\n"@ + trim_end_of(text) + "\n</imported>\n"@
}

/// The file that a line imports: within the root, not too deep, and not yet
/// imported.
pub open spec fn import_path(
    line: Seq<char>,
    base_dir: Seq<char>,
    root: Seq<char>,
    depth: int,
    imported: Seq<Seq<char>>,
) -> Option<Seq<char>> {
    match import_of(line) {
        None => None,
        Some(target) => {
            let path = normal_path(joined(base_dir, target));
            if !within(root, path) || depth >= MAX_IMPORT_DEPTH || imported.contains(path) {
                None
            } else {
                Some(path)
            }
        },
    }
}

/// Lines with their imports inlined. `files` says what each file holds, or that it
/// cannot be read; a file it does not speak of has to be read first. An import
/// that is refused or cannot be read stays as it stands, so that the failure shows.
pub open spec fn resolved(
    lines: Seq<Seq<char>>,
    base_dir: Seq<char>,
    root: Seq<char>,
    depth: int,
    imported: Seq<Seq<char>>,
    files: Map<Seq<char>, Option<Seq<char>>>,
) -> Outcome
    decreases MAX_IMPORT_DEPTH - depth, lines.len(),
{
    if lines.len() == 0 {
        Outcome::Done { text: Seq::empty(), imported }
    } else {
        let rest = lines.drop_first();
        let literal = lines[0] + "\n"@;
        match import_path(lines[0], base_dir, root, depth, imported) {
            None => prefixed(literal, resolved(rest, base_dir, root, depth, imported, files)),
            Some(path) => if !files.dom().contains(path) {
                Outcome::Needs(path)
            } else {
                match files[path] {
                    None => prefixed(
                        literal,
                        resolved(rest, base_dir, root, depth, imported, files),
                    ),
                    Some(nested) => {
                        let dir = parent_text(resolved_parts(components_of(path)), root);
                        match resolved(
                            lines_of(nested),
                            dir,
                            root,
                            depth + 1,
                            imported.push(path),
                            files,
                        ) {
                            Outcome::Needs(other) => Outcome::Needs(other),
                            Outcome::Done { text, imported: more } => prefixed(
                                fenced_import(path, text),
                                resolved(rest, base_dir, root, depth, more, files),
                            ),
                        }
                    },
                }
            },
        }
    }
}

/// What files hold, as far as it is known; `None` for one that cannot be read.
pub open spec fn contents(files: Map<Seq<char>, Option<String>>) -> Map<
    Seq<char>,
    Option<Seq<char>>,
> {
    Map::new(
        |path: Seq<char>| files.dom().contains(path),
        |path: Seq<char>| text_of(files[path]),
    )
}

/// A resolution, or the file it waits for.
#[derive(Debug, PartialEq, Eq)]
pub enum Resolution {
    /// This file has to be read first.
    Needs(String),
    /// The text, and the files that were inlined, in order.
    Done { text: String, imported: Vec<String> },
}

impl DeepView for Resolution {
    type V = Outcome;

    open spec fn deep_view(&self) -> Outcome {
        match *self {
            Resolution::Needs(path) => Outcome::Needs(path@),
            Resolution::Done { text, imported } => Outcome::Done {
                text: text@,
                imported: imported.deep_view(),
            },
        }
    }
}

/// Inlines every `@path` reference in `content`, relative to `base_dir` and never
/// outside `root`. Asks for one file at a time: whoever holds the file system adds
/// to `files` what it holds, or that it cannot be read, and asks again.
pub fn resolve_imports(
    content: &str,
    base_dir: &str,
    root: &str,
    files: &TextMap<Option<String>>,
) -> (r: Resolution)
    ensures
        r.deep_view() == resolved(
            lines_of(content@),
            base_dir@,
            root@,
            0,
            Seq::empty(),
            contents(files@),
        ),
{
    let none: Vec<String> = Vec::new();
    assert(none.deep_view() =~= Seq::<Seq<char>>::empty());
    resolve_lines(&lines(content), base_dir, root, 0, none, files)
}

fn resolve_lines(
    lines_in: &Vec<String>,
    base_dir: &str,
    root: &str,
    depth: usize,
    imported_in: Vec<String>,
    files: &TextMap<Option<String>>,
) -> (r: Resolution)
    requires
        depth <= MAX_IMPORT_DEPTH,
    ensures
        r.deep_view() == resolved(
            lines_in.deep_view(),
            base_dir@,
            root@,
            depth as int,
            imported_in.deep_view(),
            contents(files@),
        ),
    decreases MAX_IMPORT_DEPTH - depth,
{
    let ghost all = lines_in.deep_view();
    let ghost known = contents(files@);
    let ghost whole = resolved(
        all,
        base_dir@,
        root@,
        depth as int,
        imported_in.deep_view(),
        known,
    );
    let mut imported = imported_in;
    let mut out = String::new();
    let mut i: usize = 0;
    assert(all.skip(0) =~= all);
    assert(prefixed(out@, whole) == whole) by {
        if let Outcome::Done { text, imported } = whole {
            assert(out@ + text =~= text);
        }
    }
    while i < lines_in.len()
        invariant
            i <= lines_in@.len(),
            depth <= MAX_IMPORT_DEPTH,
            all == lines_in.deep_view(),
            known == contents(files@),
            whole == resolved(
                lines_in.deep_view(),
                base_dir@,
                root@,
                depth as int,
                imported_in.deep_view(),
                contents(files@),
            ),
            prefixed(
                out@,
                resolved(
                    all.skip(i as int),
                    base_dir@,
                    root@,
                    depth as int,
                    imported.deep_view(),
                    known,
                ),
            ) == whole,
        decreases lines_in@.len() - i,
    {
        let line = &lines_in[i];
        let ghost rest = all.skip(i as int);
        let ghost before = out@;
        let ghost had = imported.deep_view();
        assert(rest[0] == line@);
        assert(rest.drop_first() =~= all.skip(i + 1));
        let wanted: Option<String> = match parse_import(line) {
            Some(target) => {
                let path = normalize(&paths::join(base_dir, &target));
                if !paths::starts_with(&path, root) || depth >= MAX_IMPORT_DEPTH || among(
                    &imported,
                    &path,
                ) {
                    None
                } else {
                    Some(path)
                }
            },
            None => None,
        };
        assert(text_of(wanted) == import_path(line@, base_dir@, root@, depth as int, had));
        let nested: Option<(String, &String)> = match wanted {
            Some(path) => match files.get(&path) {
                None => {
                    return Resolution::Needs(path);
                },
                Some(Some(text)) => Some((path, text)),
                Some(None) => None,
            },
            None => None,
        };
        match nested {
            None => {
                out.push_str(line);
                out.push_str("\n");
                proof {
                    let next = resolved(
                        all.skip(i + 1),
                        base_dir@,
                        root@,
                        depth as int,
                        had,
                        known,
                    );
                    lemma_prefixed(before, line@ + "\n"@, next);
                    assert(out@ =~= before + (line@ + "\n"@));
                }
            },
            Some((path, text)) => {
                let dir = parent(normal_parts(&path), root);
                imported.push(path.clone());
                assert(imported.deep_view() =~= had.push(path@));
                match resolve_lines(&lines(text), &dir, root, depth + 1, imported, files) {
                    Resolution::Needs(other) => {
                        return Resolution::Needs(other);
                    },
                    Resolution::Done { text: expanded, imported: more } => {
                        imported = more;
                        out.push_str("<imported path=\"");
                        out.push_str(&path);
                        out.push_str("\">\n");
                        out.push_str(&trim_end(&expanded));
                        out.push_str("\n</imported>\n");
                        proof {
                            let next = resolved(
                                all.skip(i + 1),
                                base_dir@,
                                root@,
                                depth as int,
                                imported.deep_view(),
                                known,
                            );
                            let fence = fenced_import(path@, expanded@);
                            lemma_prefixed(before, fence, next);
                            assert(out@ =~= before + fence);
                        }
                    },
                }
            },
        }
        i += 1;
    }
    assert(all.skip(i as int) =~= Seq::<Seq<char>>::empty());
    assert(out@ + Seq::<char>::empty() =~= out@);
    Resolution::Done { text: out, imported }
}

proof fn lemma_prefixed(a: Seq<char>, b: Seq<char>, outcome: Outcome)
    ensures
        prefixed(a, prefixed(b, outcome)) == prefixed(a + b, outcome),
{
    if let Outcome::Done { text, imported } = outcome {
        assert(a + (b + text) =~= (a + b) + text);
    }
}

/// Nothing outside the root is ever imported, and no file twice: a chain of
/// imports cannot read the rest of the machine, and cannot run in a circle.
pub proof fn law_imports_stay_inside(
    lines: Seq<Seq<char>>,
    base_dir: Seq<char>,
    root: Seq<char>,
    depth: int,
    imported: Seq<Seq<char>>,
    files: Map<Seq<char>, Option<Seq<char>>>,
)
    requires
        0 <= depth <= MAX_IMPORT_DEPTH,
        imported.no_duplicates(),
        forall|i: int| 0 <= i < imported.len() ==> within(root, #[trigger] imported[i]),
    ensures
        match resolved(lines, base_dir, root, depth, imported, files) {
            Outcome::Needs(path) => within(root, path) && !imported.contains(path),
            Outcome::Done { imported: all, .. } => {
                &&& all.no_duplicates()
                &&& imported.len() <= all.len()
                &&& all.take(imported.len() as int) == imported
                &&& forall|i: int| 0 <= i < all.len() ==> within(root, #[trigger] all[i])
            },
        },
    decreases MAX_IMPORT_DEPTH - depth, lines.len(),
{
    if lines.len() == 0 {
        assert(imported.take(imported.len() as int) =~= imported);
    } else {
        let rest = lines.drop_first();
        match import_path(lines[0], base_dir, root, depth, imported) {
            None => {
                law_imports_stay_inside(rest, base_dir, root, depth, imported, files);
            },
            Some(path) => {
                if files.dom().contains(path) {
                    match files[path] {
                        None => {
                            law_imports_stay_inside(rest, base_dir, root, depth, imported, files);
                        },
                        Some(nested) => {
                            let dir = parent_text(resolved_parts(components_of(path)), root);
                            let more = imported.push(path);
                            assert(more.no_duplicates());
                            assert forall|i: int| 0 <= i < more.len() implies within(
                                root,
                                #[trigger] more[i],
                            ) by {}
                            law_imports_stay_inside(
                                lines_of(nested),
                                dir,
                                root,
                                depth + 1,
                                more,
                                files,
                            );
                            match resolved(lines_of(nested), dir, root, depth + 1, more, files) {
                                Outcome::Needs(other) => {
                                    assert forall|i: int| 0 <= i < imported.len() implies
                                        imported[i] != other by {
                                        assert(more[i] == imported[i]);
                                        assert(more.contains(more[i]));
                                    }
                                },
                                Outcome::Done { text, imported: all } => {
                                    law_imports_stay_inside(
                                        rest,
                                        base_dir,
                                        root,
                                        depth,
                                        all,
                                        files,
                                    );
                                    assert(all.take(imported.len() as int) =~= imported) by {
                                        assert forall|i: int| 0 <= i < imported.len() implies all[i]
                                            == imported[i] by {
                                            assert(all.take(more.len() as int)[i] == more[i]);
                                        }
                                    }
                                    match resolved(rest, base_dir, root, depth, all, files) {
                                        Outcome::Needs(other) => {
                                            assert forall|i: int|
                                                0 <= i < imported.len() implies imported[i]
                                                != other by {
                                                assert(all.take(
                                                    imported.len() as int,
                                                )[i] == imported[i]);
                                                assert(all.contains(all[i]));
                                            }
                                        },
                                        Outcome::Done { text, imported: last } => {
                                            assert(last.take(imported.len() as int) =~= imported)
                                                by {
                                                assert forall|i: int|
                                                    0 <= i < imported.len() implies last[i]
                                                    == imported[i] by {
                                                    assert(last.take(all.len() as int)[i]
                                                        == all[i]);
                                                    assert(all.take(
                                                        imported.len() as int,
                                                    )[i] == imported[i]);
                                                }
                                            }
                                        },
                                    }
                                },
                            }
                        },
                    }
                }
            },
        }
    }
}

/// Text without imports passes through: every line comes out as it is.
pub proof fn law_prose_passes_through(
    lines: Seq<Seq<char>>,
    base_dir: Seq<char>,
    root: Seq<char>,
    depth: int,
    imported: Seq<Seq<char>>,
    files: Map<Seq<char>, Option<Seq<char>>>,
)
    requires
        forall|i: int| 0 <= i < lines.len() ==> import_of(#[trigger] lines[i]) is None,
    ensures
        resolved(lines, base_dir, root, depth, imported, files) == (Outcome::Done {
            text: with_newlines(lines),
            imported,
        }),
    decreases lines.len(),
{
    if lines.len() > 0 {
        assert forall|i: int| 0 <= i < lines.drop_first().len() implies import_of(
            #[trigger] lines.drop_first()[i],
        ) is None by {
            assert(lines.drop_first()[i] == lines[i + 1]);
        }
        law_prose_passes_through(lines.drop_first(), base_dir, root, depth, imported, files);
    }
}

/// Lines, each with a line feed behind it.
pub open spec fn with_newlines(lines: Seq<Seq<char>>) -> Seq<char>
    decreases lines.len(),
{
    if lines.len() == 0 {
        Seq::empty()
    } else {
        lines[0] + "\n"@ + with_newlines(lines.drop_first())
    }
}

} // verus!
