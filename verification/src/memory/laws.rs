//! What holds of memory: which files are looked for, in what order they stand, what their
//! imports become, and that all of it is in the prompt.

use vstd::prelude::*;

use crate::memory::imports::{
    import_of, import_path, normal_path, parent_text, path_text, resolved, resolved_parts, Outcome,
    MAX_IMPORT_DEPTH,
};
use crate::memory::layer::{layer_le, Layer, MemoryFile};
use crate::memory::loader::{
    by_layer, candidates_below, candidates_of, descend, dirs_between, files_tokens,
    law_general_before_specific,
    layer_place, rendered_files, rendering_of, snapshot_note, CandidateModel,
};
use crate::paths::{components_of, joined, within};
use crate::text::{bytes_of, is_white, join_of, lines_of, trim_end_of, trim_of, trim_start_of};
use crate::text_laws::{
    is_blank, is_one_word, lemma_trim_end_blank, lemma_trim_end_front, lemma_trim_start_blank,
};

verus! {

/// A file as it stands in the prompt: its path, and what it says, between the words that
/// set it off.
pub open spec fn fenced(file: MemoryFile) -> Seq<char> {
    "<instructions path=\""@ + file.origin.path@ + "\">\n"@ + trim_end_of(file.content@)
        + "\n</instructions>\n\n"@
}

proof fn lemma_rendered_split(a: Seq<MemoryFile>, b: Seq<MemoryFile>, n: int)
    requires
        0 <= n <= b.len(),
    ensures
        rendered_files(a + b, a.len() + n) == rendered_files(a, a.len() as int) + rendered_files(
            b,
            n,
        ),
    decreases n,
{
    let all = a + b;
    if n == 0 {
        lemma_rendered_front(a, b, a.len() as int);
        assert(rendered_files(a, a.len() as int) + rendered_files(b, 0) =~= rendered_files(
            a,
            a.len() as int,
        ));
    } else {
        lemma_rendered_split(a, b, n - 1);
        assert(all[a.len() + n - 1] == b[n - 1]);
        let block = fenced(b[n - 1]);
        assert(rendered_files(a, a.len() as int) + (rendered_files(b, n - 1) + block)
            =~= rendered_files(a, a.len() as int) + rendered_files(b, n - 1) + block);
    }
}

proof fn lemma_rendered_front(a: Seq<MemoryFile>, b: Seq<MemoryFile>, n: int)
    requires
        0 <= n <= a.len(),
    ensures
        rendered_files(a + b, n) == rendered_files(a, n),
    decreases n,
{
    if n > 0 {
        lemma_rendered_front(a, b, n - 1);
        assert((a + b)[n - 1] == a[n - 1]);
    }
}

/// No file is left out and none is moved: the files of two lists, one behind the other,
/// read as the first do and then, without another note, as the second do; and a file by
/// itself reads as the note and what it says, under its path.
pub proof fn law_files_read_one_after_another(
    a: Seq<MemoryFile>,
    b: Seq<MemoryFile>,
    file: MemoryFile,
)
    requires
        a.len() > 0,
        b.len() > 0,
    ensures
        rendering_of(a + b) == rendering_of(a) + rendering_of(b).skip(
            snapshot_note().len() as int,
        ),
        rendering_of(seq![file]) == snapshot_note() + fenced(file),
        rendering_of(Seq::empty()) == Seq::<char>::empty(),
{
    let note = snapshot_note();
    let second = rendered_files(b, b.len() as int);
    lemma_rendered_split(a, b, b.len() as int);
    assert(rendering_of(b).skip(note.len() as int) =~= second);
    assert(note + (rendered_files(a, a.len() as int) + second) =~= note + rendered_files(
        a,
        a.len() as int,
    ) + second);
    reveal_with_fuel(rendered_files, 2);
    let one = seq![file];
    assert(one[0] == file);
    assert(rendered_files(one, 1) =~= fenced(file));
}

/// Every file stands in the prompt, whole and in its place: what comes before it reads as
/// the files before it do, and what comes behind it as those behind it.
pub proof fn law_every_file_is_in_the_prompt(files: Seq<MemoryFile>, i: int)
    requires
        0 <= i < files.len(),
    ensures
        rendering_of(files) == snapshot_note() + rendered_files(files.take(i), i) + fenced(files[i])
            + rendered_files(files.skip(i + 1), files.len() - i - 1),
{
    let front = files.take(i);
    let one = seq![files[i]];
    let back = files.skip(i + 1);
    assert(files =~= front + (one + back));
    lemma_rendered_split(front, one + back, (one + back).len() as int);
    lemma_rendered_split(one, back, back.len() as int);
    reveal_with_fuel(rendered_files, 2);
    assert(rendered_files(one, 1) =~= fenced(files[i]));
    let a = rendered_files(front, i);
    let c = rendered_files(back, back.len() as int);
    assert(snapshot_note() + (a + (fenced(files[i]) + c)) =~= snapshot_note() + a + fenced(
        files[i],
    ) + c);
}

/// Those of some files that are of one layer, in their order.
pub open spec fn of_layer(files: Seq<MemoryFile>, layer: Layer) -> Seq<MemoryFile>
    decreases files.len(),
{
    if files.len() == 0 {
        files
    } else if files.last().origin.layer == layer {
        of_layer(files.drop_last(), layer).push(files.last())
    } else {
        of_layer(files.drop_last(), layer)
    }
}

proof fn lemma_of_layer_insert(files: Seq<MemoryFile>, p: int, file: MemoryFile, layer: Layer)
    requires
        0 <= p <= files.len(),
        forall|i: int|
            p <= i < files.len() ==> !layer_le(
                (#[trigger] files[i]).origin.layer,
                file.origin.layer,
            ),
    ensures
        of_layer(files.insert(p, file), layer) == (if file.origin.layer == layer {
            of_layer(files, layer).push(file)
        } else {
            of_layer(files, layer)
        }),
    decreases files.len(),
{
    let all = files.insert(p, file);
    if p == files.len() {
        assert(all.drop_last() =~= files);
        assert(all.last() == file);
    } else {
        let rest = files.drop_last();
        assert(all.drop_last() =~= rest.insert(p, file));
        assert(all.last() == files.last());
        assert forall|i: int| p <= i < rest.len() implies !layer_le(
            (#[trigger] rest[i]).origin.layer,
            file.origin.layer,
        ) by {
            assert(rest[i] == files[i]);
        }
        lemma_of_layer_insert(rest, p, file, layer);
        assert(!layer_le(files[files.len() - 1].origin.layer, file.origin.layer));
        if files.last().origin.layer == layer {
            assert(file.origin.layer != layer) by {
                assert(layer_le(layer, layer));
            }
        }
    }
}

/// Files of one layer stay in the order in which they were found.
pub proof fn law_a_layer_keeps_its_order(files: Seq<MemoryFile>, layer: Layer)
    ensures
        of_layer(by_layer(files), layer) == of_layer(files, layer),
    decreases files.len(),
{
    if files.len() > 0 {
        let rest = by_layer(files.drop_last());
        law_a_layer_keeps_its_order(files.drop_last(), layer);
        law_general_before_specific(files.drop_last());
        let file = files.last();
        let p = layer_place(rest, file.origin.layer);
        lemma_place(rest, file.origin.layer);
        lemma_of_layer_insert(rest, p, file, layer);
    }
}

proof fn lemma_place(files: Seq<MemoryFile>, layer: Layer)
    requires
        forall|i: int, j: int|
            0 <= i < j < files.len() ==> layer_le(
                (#[trigger] files[i]).origin.layer,
                (#[trigger] files[j]).origin.layer,
            ),
    ensures
        0 <= layer_place(files, layer) <= files.len(),
        forall|i: int|
            layer_place(files, layer) <= i < files.len() ==> !layer_le(
                (#[trigger] files[i]).origin.layer,
                layer,
            ),
    decreases files.len(),
{
    if files.len() > 0 && !layer_le(files.last().origin.layer, layer) {
        lemma_place(files.drop_last(), layer);
        assert forall|i: int| layer_place(files, layer) <= i < files.len() implies !layer_le(
            (#[trigger] files[i]).origin.layer,
            layer,
        ) by {
            if i < files.len() - 1 {
                assert(files.drop_last()[i] == files[i]);
            }
        }
    }
}

/// The layers load from the general to the personal: the organization's, the user's, the
/// project's, the directories' from the root down, and the developer's own last.
pub proof fn law_layers_load_in_order(shallow: usize, deep: usize)
    ensures
        layer_le(Layer::Managed, Layer::User) && !layer_le(Layer::User, Layer::Managed),
        layer_le(Layer::User, Layer::Project) && !layer_le(Layer::Project, Layer::User),
        ({
            let directory = Layer::Directory { depth: deep };
            &&& layer_le(Layer::Project, directory) && !layer_le(directory, Layer::Project)
            &&& layer_le(directory, Layer::Local) && !layer_le(Layer::Local, directory)
            &&& layer_le(Layer::Directory { depth: shallow }, directory) <==> shallow <= deep
        }),
{
}

/// Whether a candidate is the file with a name in a directory.
pub open spec fn is_file_in(
    candidate: CandidateModel,
    dir: Seq<char>,
    name: Seq<char>,
    layer: Layer,
) -> bool {
    &&& candidate.path == joined(dir, name)
    &&& candidate.base_dir == dir
    &&& candidate.layer == layer
}

/// What is looked for: in the user's directory, the project's, and every one from there
/// down to the working directory, both names that memory goes by, in that order; and last
/// the personal file of the project. Nothing else is looked for.
pub proof fn law_what_is_looked_for(
    user_dir: Option<Seq<char>>,
    root: Seq<char>,
    cwd: Seq<char>,
    i: int,
)
    ensures
        ({
            let all = candidates_of(user_dir, root, cwd);
            let dirs = dirs_between(root, cwd);
            let first: int = if user_dir is Some {
                2
            } else {
                0
            };
            &&& all.len() == first + 2 + 2 * dirs.len() + 1
            &&& user_dir matches Some(dir) ==> {
                &&& is_file_in(all[0], dir, "AGENTS.md"@, Layer::User)
                &&& is_file_in(all[1], dir, "OCTANE.md"@, Layer::User)
            }
            &&& is_file_in(all[first], root, "AGENTS.md"@, Layer::Project)
            &&& is_file_in(all[first + 1], root, "OCTANE.md"@, Layer::Project)
            &&& 0 <= i < dirs.len() ==> {
                let layer = Layer::Directory { depth: i as usize };
                &&& is_file_in(all[first + 2 + 2 * i], dirs[i], "AGENTS.md"@, layer)
                &&& is_file_in(all[first + 3 + 2 * i], dirs[i], "OCTANE.md"@, layer)
            }
            &&& is_file_in(all.last(), root, "OCTANE.local.md"@, Layer::Local)
        }),
{
    let dirs = dirs_between(root, cwd);
    lemma_below(dirs, dirs.len() as int, i);
}

proof fn lemma_below(dirs: Seq<Seq<char>>, n: int, i: int)
    requires
        0 <= n <= dirs.len(),
    ensures
        candidates_below(dirs, n).len() == 2 * n,
        0 <= i < n ==> {
            let layer = Layer::Directory { depth: i as usize };
            &&& is_file_in(candidates_below(dirs, n)[2 * i], dirs[i], "AGENTS.md"@, layer)
            &&& is_file_in(candidates_below(dirs, n)[2 * i + 1], dirs[i], "OCTANE.md"@, layer)
        },
    decreases n,
{
    if n > 0 {
        lemma_below(dirs, n - 1, i);
    }
}

/// The directories from a root down to a working directory: none where it lies elsewhere;
/// otherwise one for each component by which it lies deeper, each below the one before.
pub proof fn law_every_directory_on_the_way(root: Seq<char>, cwd: Seq<char>, i: int)
    ensures
        ({
            let dirs = dirs_between(root, cwd);
            let from = components_of(root).len() as int;
            let parts = components_of(cwd);
            &&& !within(root, cwd) ==> dirs.len() == 0
            &&& within(root, cwd) ==> dirs.len() == parts.len() - from
            &&& within(root, cwd) && dirs.len() > 0 ==> dirs[0] == joined(root, parts[from])
            &&& 0 < i < dirs.len() ==> dirs[i] == joined(dirs[i - 1], parts[from + i])
        }),
{
    if within(root, cwd) {
        let from = components_of(root).len() as int;
        let parts = components_of(cwd).skip(from);
        lemma_descend(root, parts, i);
    }
}

proof fn lemma_descend(start: Seq<char>, parts: Seq<Seq<char>>, i: int)
    ensures
        ({
            let dirs = descend(start, parts);
            &&& dirs.len() == parts.len()
            &&& parts.len() > 0 ==> dirs[0] == joined(start, parts[0])
            &&& 0 < i < parts.len() ==> dirs[i] == joined(dirs[i - 1], parts[i])
        }),
    decreases parts.len(),
{
    if parts.len() > 0 {
        lemma_descend(start, parts.drop_last(), i);
        lemma_descend(start, parts.drop_last(), i - 1);
    }
}

/// Lines are dealt with one after another: those behind others come out as they would by
/// themselves, once it is known what the others imported; and they wait where the others
/// wait.
pub proof fn law_lines_follow_one_another(
    a: Seq<Seq<char>>,
    b: Seq<Seq<char>>,
    base_dir: Seq<char>,
    root: Seq<char>,
    depth: int,
    imported: Seq<Seq<char>>,
    files: Map<Seq<char>, Option<Seq<char>>>,
)
    requires
        0 <= depth <= MAX_IMPORT_DEPTH,
    ensures
        resolved(a + b, base_dir, root, depth, imported, files) == (match resolved(
            a,
            base_dir,
            root,
            depth,
            imported,
            files,
        ) {
            Outcome::Needs(path) => Outcome::Needs(path),
            Outcome::Done { text, imported: more } => match resolved(
                b,
                base_dir,
                root,
                depth,
                more,
                files,
            ) {
                Outcome::Needs(path) => Outcome::Needs(path),
                Outcome::Done { text: rest, imported: all } => Outcome::Done {
                    text: text + rest,
                    imported: all,
                },
            },
        }),
    decreases a.len(),
{
    let all = a + b;
    if a.len() == 0 {
        assert(all =~= b);
        if let Outcome::Done { text, imported: more } = resolved(
            b,
            base_dir,
            root,
            depth,
            imported,
            files,
        ) {
            assert(Seq::<char>::empty() + text =~= text);
        }
    } else {
        let rest = a.drop_first();
        assert(all[0] == a[0]);
        assert(all.drop_first() =~= rest + b);
        let literal = a[0] + "\n"@;
        law_lines_follow_one_another(rest, b, base_dir, root, depth, imported, files);
        lemma_prefixed_twice(literal, rest, b, base_dir, root, depth, imported, files);
        if let Some(path) = import_path(a[0], base_dir, root, depth, imported) {
            if files.dom().contains(path) && files[path] is Some {
                let nested = files[path]->0;
                let dir = parent_text(resolved_parts(components_of(path)), root);
                let inner = resolved(
                    lines_of(nested),
                    dir,
                    root,
                    depth + 1,
                    imported.push(path),
                    files,
                );
                if let Outcome::Done { text, imported: more } = inner {
                    law_lines_follow_one_another(rest, b, base_dir, root, depth, more, files);
                    let shown = "<imported path=\""@ + path + "\">\n"@ + trim_end_of(text)
                        + "\n</imported>\n"@;
                    lemma_prefixed_twice(shown, rest, b, base_dir, root, depth, more, files);
                }
            }
        }
    }
}

proof fn lemma_prefixed_twice(
    front: Seq<char>,
    a: Seq<Seq<char>>,
    b: Seq<Seq<char>>,
    base_dir: Seq<char>,
    root: Seq<char>,
    depth: int,
    imported: Seq<Seq<char>>,
    files: Map<Seq<char>, Option<Seq<char>>>,
)
    ensures
        resolved(a, base_dir, root, depth, imported, files) matches Outcome::Done {
            text,
            imported: more,
        } ==> (resolved(b, base_dir, root, depth, more, files) matches Outcome::Done {
            text: rest,
            ..
        } ==> front + (text + rest) == front + text + rest),
{
    if let Outcome::Done { text, imported: more } = resolved(
        a,
        base_dir,
        root,
        depth,
        imported,
        files,
    ) {
        if let Outcome::Done { text: rest, .. } = resolved(
            b,
            base_dir,
            root,
            depth,
            more,
            files,
        ) {
            assert(front + (text + rest) =~= front + text + rest);
        }
    }
}

/// What one line becomes. A line that imports nothing, or whose import leads out of the
/// root, lies too deep, was made before, or cannot be read, stays as it stands. Any other
/// import is replaced by what the file says, with its own imports in place, set off under
/// its path; its file counts as imported from then on, before the files that it imports.
/// A file that was not read yet is asked for.
pub proof fn law_what_a_line_becomes(
    line: Seq<char>,
    base_dir: Seq<char>,
    root: Seq<char>,
    depth: int,
    imported: Seq<Seq<char>>,
    files: Map<Seq<char>, Option<Seq<char>>>,
)
    requires
        0 <= depth <= MAX_IMPORT_DEPTH,
    ensures
        ({
            let outcome = resolved(seq![line], base_dir, root, depth, imported, files);
            let path = normal_path(joined(base_dir, import_of(line)->0));
            let open = import_of(line) is Some && within(root, path) && depth < 3
                && !imported.contains(path);
            let kept = Outcome::Done { text: line + "\n"@, imported };
            &&& !open ==> outcome == kept
            &&& open && !files.dom().contains(path) ==> outcome == Outcome::Needs(path)
            &&& open && files.dom().contains(path) && files[path] is None ==> outcome == kept
            &&& open && files.dom().contains(path) && files[path] is Some ==> {
                let dir = parent_text(resolved_parts(components_of(path)), root);
                match resolved(
                    lines_of(files[path]->0),
                    dir,
                    root,
                    depth + 1,
                    imported.push(path),
                    files,
                ) {
                    Outcome::Needs(other) => outcome == Outcome::Needs(other),
                    Outcome::Done { text, imported: more } => outcome == Outcome::Done {
                        text: "<imported path=\""@ + path + "\">\n"@ + trim_end_of(text)
                            + "\n</imported>\n"@,
                        imported: more,
                    },
                }
            }
        }),
{
    reveal_with_fuel(resolved, 2);
    let one = seq![line];
    assert(one[0] == line);
    let rest = one.drop_first();
    assert(rest =~= Seq::<Seq<char>>::empty());
    let literal = line + "\n"@;
    assert(literal + Seq::<char>::empty() =~= literal);
    if let Some(path) = import_path(line, base_dir, root, depth, imported) {
        if files.dom().contains(path) && files[path] is Some {
            let dir = parent_text(resolved_parts(components_of(path)), root);
            if let Outcome::Done { text, imported: more } = resolved(
                lines_of(files[path]->0),
                dir,
                root,
                depth + 1,
                imported.push(path),
                files,
            ) {
                let shown = "<imported path=\""@ + path + "\">\n"@ + trim_end_of(text)
                    + "\n</imported>\n"@;
                assert(shown + Seq::<char>::empty() =~= shown);
            }
        }
    }
}

/// What an import looks like: an `@` and a path, with white space around them at most. A
/// rooted path, an `@` alone, white space within, and a line that begins otherwise are
/// prose.
pub proof fn law_what_an_import_looks_like(
    before: Seq<char>,
    target: Seq<char>,
    after: Seq<char>,
    line: Seq<char>,
)
    requires
        is_blank(before),
        is_blank(after),
    ensures
        is_one_word(target) && target.len() > 0 && target[0] != '/' ==> import_of(
            before + seq!['@'] + target + after,
        ) == Some(target),
        target.len() > 0 && target[0] == '/' ==> import_of(before + seq!['@'] + target + after)
            is None,
        import_of(line) matches Some(path) ==> trim_of(line) == seq!['@'] + path && path.len() > 0
            && is_one_word(path) && path[0] != '/',
{
    let word = seq!['@'] + target;
    let whole = before + seq!['@'] + target + after;
    assert(whole =~= before + (word + after));
    lemma_trim_start_blank(before, word + after);
    assert((word + after)[0] == '@');
    assert(trim_start_of(word + after) == word + after);
    if target.len() > 0 && is_one_word(target) {
        assert(word.last() == target.last());
        assert(!is_white(target[target.len() - 1]));
        lemma_trim_end_blank(word, after);
        assert(trim_end_of(word) == word);
        assert(trim_of(whole) == word);
        assert(word.skip(1) =~= target);
    }
    if target.len() > 0 && target[0] == '/' {
        lemma_trim_end_front(word + after);
        let trimmed = trim_of(whole);
        assert(trimmed == trim_end_of(word + after));
        if trimmed.len() >= 2 {
            assert(trimmed[1] == (word + after)[1]);
            assert(trimmed.skip(1)[0] == '/');
        }
    }
    if let Some(path) = import_of(line) {
        let trimmed = trim_of(line);
        assert(trimmed =~= seq!['@'] + path);
    }
}

/// Whether a component says where to go rather than naming anything.
pub open spec fn is_step(part: Seq<char>) -> bool {
    part == "."@ || part == ".."@
}

/// How a path is resolved: going into a directory and back changes nothing, staying does
/// not either, going up from the root stays there, and a path without such steps is left
/// as it is. No step is left.
pub proof fn law_steps_are_resolved(parts: Seq<Seq<char>>, name: Seq<char>)
    ensures
        !is_step(name) && name != "/"@ ==> resolved_parts(parts.push(name).push(".."@))
            == resolved_parts(parts),
        resolved_parts(parts.push("."@)) == resolved_parts(parts),
        !is_step(name) ==> resolved_parts(parts.push(name)) == resolved_parts(parts).push(name),
        resolved_parts(seq!["/"@, ".."@]) == seq!["/"@],
        (forall|i: int| 0 <= i < parts.len() ==> !is_step(#[trigger] parts[i])) ==> resolved_parts(
            parts,
        ) == parts,
        forall|i: int|
            0 <= i < resolved_parts(parts).len() ==> !is_step(#[trigger] resolved_parts(parts)[i]),
{
    reveal_strlit("/");
    reveal_strlit(".");
    reveal_strlit("..");
    assert("/"@.len() == 1 && "."@.len() == 1 && ".."@.len() == 2);
    assert("/"@[0] == '/' && "."@[0] == '.');
    reveal_with_fuel(resolved_parts, 3);
    assert(parts.push("."@).drop_last() =~= parts);
    assert(parts.push(name).drop_last() =~= parts);
    assert(parts.push(name).push(".."@).drop_last() =~= parts.push(name));
    assert(resolved_parts(parts).push(name).drop_last() =~= resolved_parts(parts));
    let rooted = seq!["/"@, ".."@];
    assert(rooted.drop_last() =~= seq!["/"@]);
    assert(seq!["/"@].drop_last() =~= Seq::<Seq<char>>::empty());
    assert(resolved_parts(seq!["/"@]) =~= seq!["/"@]);
    lemma_steps(parts);
}

proof fn lemma_steps(parts: Seq<Seq<char>>)
    ensures
        (forall|i: int| 0 <= i < parts.len() ==> !is_step(#[trigger] parts[i])) ==> resolved_parts(
            parts,
        ) == parts,
        forall|i: int|
            0 <= i < resolved_parts(parts).len() ==> !is_step(#[trigger] resolved_parts(parts)[i]),
    decreases parts.len(),
{
    if parts.len() > 0 {
        let rest = parts.drop_last();
        lemma_steps(rest);
        if forall|i: int| 0 <= i < parts.len() ==> !is_step(#[trigger] parts[i]) {
            assert forall|i: int| 0 <= i < rest.len() implies !is_step(#[trigger] rest[i]) by {
                assert(rest[i] == parts[i]);
            }
            assert(!is_step(parts[parts.len() - 1]));
            assert(rest.push(parts.last()) =~= parts);
        }
        let before = resolved_parts(rest);
        let all = resolved_parts(parts);
        assert forall|i: int| 0 <= i < all.len() implies !is_step(#[trigger] all[i]) by {
            if i < before.len() {
                assert(!is_step(before[i]));
                assert(all[i] == before[i]);
            } else {
                assert(all[i] == parts.last());
            }
        }
    }
}

/// Every file is estimated, at a token for every four bytes that it says, rounded up.
pub proof fn law_every_file_is_estimated(files: Seq<MemoryFile>, i: int)
    requires
        0 <= i < files.len(),
    ensures
        files_tokens(files, 0) == 0,
        files_tokens(files, i + 1) == files_tokens(files, i) + (bytes_of(files[i].content@) + 3) / 4,
{
}

/// Components are written as a path with a slash between each two, and one before the first
/// where they begin at the root.
pub proof fn law_components_are_written_as_a_path(parts: Seq<Seq<char>>)
    ensures
        path_text(seq!["/"@] + parts) == "/"@ + join_of(parts, "/"@),
        parts.len() > 0 && parts[0] != "/"@ ==> path_text(parts) == join_of(parts, "/"@),
        path_text(Seq::empty()) == Seq::<char>::empty(),
{
    let rooted = seq!["/"@] + parts;
    assert(rooted[0] == "/"@);
    assert(rooted.drop_first() =~= parts);
}

} // verus!
