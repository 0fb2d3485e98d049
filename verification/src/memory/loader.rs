//! Which memory files there may be, in what order, and how they read.

use vstd::prelude::*;

use crate::context::prune::quarter;
use crate::memory::layer::{layer_le, Layer, MemoryFile};
use crate::paths;
use crate::paths::{components_of, joined, within};
use crate::text::{bytes_of, trim_end, trim_end_of};

verus! {

/// Everything loaded at session start, ordered for the prompt.
#[derive(Debug)]
pub struct MemorySnapshot {
    pub files: Vec<MemoryFile>,
}

impl Default for MemorySnapshot {
    fn default() -> (r: Self)
        ensures
            r.files@.len() == 0,
    {
        MemorySnapshot { files: Vec::new() }
    }
}

/// How one file reads in the prompt: fenced, with its path.
pub open spec fn rendered_file(path: Seq<char>, content: Seq<char>) -> Seq<char> {
    "<instructions path=\""@ + path + "\">\n"@ + trim_end_of(content) + "\n</instructions>\n\n"@
}

/// How the first `n` files read in the prompt.
pub open spec fn rendered_files(files: Seq<MemoryFile>, n: int) -> Seq<char>
    decreases n,
{
    if n <= 0 {
        Seq::empty()
    } else {
        rendered_files(files, n - 1) + rendered_file(
            files[n - 1].origin.path@,
            files[n - 1].content@,
        )
    }
}

/// What is said before the files.
pub open spec fn snapshot_note() -> Seq<char> {
    "The following instruction files were found for this project. They are a snapshot taken at session start and will not update if the files change.\n\n"@
}

/// How files read in the prompt: the note, then each of them; nothing for no files.
pub open spec fn rendering_of(files: Seq<MemoryFile>) -> Seq<char> {
    if files.len() == 0 {
        Seq::empty()
    } else {
        snapshot_note() + rendered_files(files, files.len() as int)
    }
}

/// The tokens of the first `n` files.
pub open spec fn files_tokens(files: Seq<MemoryFile>, n: int) -> nat
    decreases n,
{
    if n <= 0 {
        0
    } else {
        files_tokens(files, n - 1) + quarter(bytes_of(files[n - 1].content@))
    }
}

proof fn lemma_files_tokens(files: Seq<MemoryFile>, n: int, m: int)
    requires
        n <= m,
    ensures
        files_tokens(files, n) <= files_tokens(files, m),
    decreases m - n,
{
    if n < m {
        lemma_files_tokens(files, n, m - 1);
    }
}

/// The position at which a file goes among files in layer order: behind the last
/// that does not load after it.
pub open spec fn layer_place(files: Seq<MemoryFile>, layer: Layer) -> int
    decreases files.len(),
{
    if files.len() == 0 {
        0
    } else if layer_le(files.last().origin.layer, layer) {
        files.len() as int
    } else {
        layer_place(files.drop_last(), layer)
    }
}

/// Files in layer order; those of one layer keep theirs.
pub open spec fn by_layer(files: Seq<MemoryFile>) -> Seq<MemoryFile>
    decreases files.len(),
{
    if files.len() == 0 {
        files
    } else {
        let rest = by_layer(files.drop_last());
        rest.insert(layer_place(rest, files.last().origin.layer), files.last())
    }
}

impl MemorySnapshot {
    /// Puts what was loaded in layer order.
    pub fn from_files(files: Vec<MemoryFile>) -> (r: Self)
        ensures
            r.files@ == by_layer(files@),
    {
        let ghost all = files@;
        let mut rest = files;
        let mut out: Vec<MemoryFile> = Vec::new();
        let ghost mut done: int = 0;
        assert(all.take(0) =~= Seq::<MemoryFile>::empty());
        assert(all.skip(0) =~= all);
        while rest.len() > 0
            invariant
                0 <= done <= all.len(),
                rest@ == all.skip(done),
                out@ == by_layer(all.take(done)),
            decreases rest@.len(),
        {
            let file = rest.remove(0);
            assert(rest@ =~= all.skip(done + 1));
            assert(all.take(done + 1).drop_last() =~= all.take(done));
            assert(all.take(done + 1).last() == file);
            let mut at: usize = out.len();
            assert(out@.take(at as int) =~= out@);
            while at > 0 && !out[at - 1].origin.layer.loads_before(file.origin.layer)
                invariant
                    at <= out@.len(),
                    layer_place(out@, file.origin.layer) == layer_place(
                        out@.take(at as int),
                        file.origin.layer,
                    ),
                decreases at,
            {
                assert(out@.take(at as int).drop_last() =~= out@.take(at - 1));
                assert(out@.take(at as int).last() == out@[at - 1]);
                at -= 1;
            }
            if at > 0 {
                assert(out@.take(at as int).last() == out@[at - 1]);
            }
            out.insert(at, file);
            proof {
                done = done + 1;
            }
        }
        assert(all.take(done) =~= all);
        MemorySnapshot { files: out }
    }

    /// Renders for the prompt; nothing for no files.
    pub fn render(&self) -> (r: String)
        ensures
            r@ == rendering_of(self.files@),
    {
        if self.files.len() == 0 {
            let nothing = String::new();
            assert(nothing@ =~= Seq::<char>::empty());
            return nothing;
        }
        let mut out = "The following instruction files were found for this project. They are a snapshot taken at session start and will not update if the files change.\n\n".to_owned();
        let mut i: usize = 0;
        assert(out@ + Seq::<char>::empty() =~= out@);
        while i < self.files.len()
            invariant
                i <= self.files@.len(),
                out@ == snapshot_note() + rendered_files(self.files@, i as int),
            decreases self.files@.len() - i,
        {
            let file = &self.files[i];
            let ghost before = out@;
            out.push_str("<instructions path=\"");
            out.push_str(&file.origin.path);
            out.push_str("\">\n");
            out.push_str(&trim_end(&file.content));
            out.push_str("\n</instructions>\n\n");
            assert(out@ =~= before + rendered_file(file.origin.path@, file.content@));
            assert(out@ =~= snapshot_note() + rendered_files(self.files@, i + 1));
            i += 1;
        }
        out
    }

    /// Rough token estimate of all files.
    pub fn estimated_tokens(&self) -> (r: usize)
        requires
            files_tokens(self.files@, self.files@.len() as int) <= usize::MAX,
        ensures
            r == files_tokens(self.files@, self.files@.len() as int),
    {
        let mut total: usize = 0;
        let mut i: usize = 0;
        while i < self.files.len()
            invariant
                i <= self.files@.len(),
                files_tokens(self.files@, self.files@.len() as int) <= usize::MAX,
                total == files_tokens(self.files@, i as int),
            decreases self.files@.len() - i,
        {
            proof {
                lemma_files_tokens(self.files@, i + 1, self.files@.len() as int);
            }
            total = total + self.files[i].estimated_tokens();
            i += 1;
        }
        total
    }
}

/// The layers are in order after loading.
pub proof fn law_general_before_specific(files: Seq<MemoryFile>)
    ensures
        by_layer(files).len() == files.len(),
        by_layer(files).to_multiset() == files.to_multiset(),
        forall|i: int, j: int|
            0 <= i < j < by_layer(files).len() ==> layer_le(
                (#[trigger] by_layer(files)[i]).origin.layer,
                (#[trigger] by_layer(files)[j]).origin.layer,
            ),
    decreases files.len(),
{
    if files.len() > 0 {
        let rest = by_layer(files.drop_last());
        let file = files.last();
        law_general_before_specific(files.drop_last());
        lemma_layer_place(rest, file.origin.layer);
        let p = layer_place(rest, file.origin.layer);
        let all = rest.insert(p, file);
        rest.insert_ensures(p, file);
        assert forall|i: int, j: int| 0 <= i < j < all.len() implies layer_le(
            (#[trigger] all[i]).origin.layer,
            (#[trigger] all[j]).origin.layer,
        ) by {
            if i == p {
                assert(all[j] == rest[j - 1]);
            } else if j == p {
                assert(all[i] == rest[i]);
            } else {
                let a = if i < p {
                    i
                } else {
                    i - 1
                };
                let b = if j < p {
                    j
                } else {
                    j - 1
                };
                assert(all[i] == rest[a]);
                assert(all[j] == rest[b]);
            }
        }
        vstd::seq_lib::to_multiset_insert(rest, p, file);
        assert(files =~= files.drop_last().push(file));
        vstd::seq_lib::to_multiset_build(files.drop_last(), file);
    }
}

proof fn lemma_layer_place(files: Seq<MemoryFile>, layer: Layer)
    requires
        forall|i: int, j: int|
            0 <= i < j < files.len() ==> layer_le(
                (#[trigger] files[i]).origin.layer,
                (#[trigger] files[j]).origin.layer,
            ),
    ensures
        0 <= layer_place(files, layer) <= files.len(),
        forall|i: int|
            0 <= i < layer_place(files, layer) ==> layer_le(
                (#[trigger] files[i]).origin.layer,
                layer,
            ),
        forall|i: int|
            layer_place(files, layer) <= i < files.len() ==> !layer_le(
                (#[trigger] files[i]).origin.layer,
                layer,
            ),
    decreases files.len(),
{
    if files.len() > 0 {
        if layer_le(files.last().origin.layer, layer) {
            assert forall|i: int| 0 <= i < files.len() implies layer_le(
                (#[trigger] files[i]).origin.layer,
                layer,
            ) by {
                if i < files.len() - 1 {
                    assert(layer_le(
                        files[i].origin.layer,
                        files[files.len() - 1].origin.layer,
                    ));
                }
            }
        } else {
            lemma_layer_place(files.drop_last(), layer);
            let p = layer_place(files, layer);
            assert forall|i: int| 0 <= i < p implies layer_le(
                (#[trigger] files[i]).origin.layer,
                layer,
            ) by {
                assert(files.drop_last()[i] == files[i]);
            }
            assert forall|i: int| p <= i < files.len() implies !layer_le(
                (#[trigger] files[i]).origin.layer,
                layer,
            ) by {
                if i < files.len() - 1 {
                    assert(files.drop_last()[i] == files[i]);
                }
            }
        }
    }
}

/// A file that may exist.
#[derive(Debug, PartialEq, Eq)]
pub struct Candidate {
    pub layer: Layer,
    pub path: String,
    /// What its imports are relative to.
    pub base_dir: String,
}

/// What a [`Candidate`] is.
pub struct CandidateModel {
    pub layer: Layer,
    pub path: Seq<char>,
    pub base_dir: Seq<char>,
}

impl DeepView for Candidate {
    type V = CandidateModel;

    open spec fn deep_view(&self) -> CandidateModel {
        CandidateModel { layer: self.layer, path: self.path@, base_dir: self.base_dir@ }
    }
}

/// The file with a name in a directory.
pub open spec fn candidate(dir: Seq<char>, name: Seq<char>, layer: Layer) -> CandidateModel {
    CandidateModel { layer, path: joined(dir, name), base_dir: dir }
}

/// The files that a directory may hold.
pub open spec fn candidates_in(dir: Seq<char>, layer: Layer) -> Seq<CandidateModel> {
    seq![candidate(dir, "AGENTS.md"@, layer), candidate(dir, "OCTANE.md"@, layer)]
}

/// The directories below `start` along `parts`, each below the one before.
pub open spec fn descend(start: Seq<char>, parts: Seq<Seq<char>>) -> Seq<Seq<char>>
    decreases parts.len(),
{
    if parts.len() == 0 {
        Seq::empty()
    } else {
        let before = descend(start, parts.drop_last());
        let above = if before.len() == 0 {
            start
        } else {
            before.last()
        };
        before.push(joined(above, parts.last()))
    }
}

/// The directories between a root and a working directory, and the latter itself;
/// none where it lies outside the root.
pub open spec fn dirs_between(root: Seq<char>, cwd: Seq<char>) -> Seq<Seq<char>> {
    if within(root, cwd) {
        descend(root, components_of(cwd).skip(components_of(root).len() as int))
    } else {
        Seq::empty()
    }
}

/// Directories strictly between `root` and `cwd`, plus `cwd` itself.
pub fn intermediate_dirs(root: &str, cwd: &str) -> (r: Vec<String>)
    ensures
        r.deep_view() == dirs_between(root@, cwd@),
{
    let mut dirs: Vec<String> = Vec::new();
    assert(dirs.deep_view() =~= Seq::<Seq<char>>::empty());
    if !paths::starts_with(cwd, root) {
        return dirs;
    }
    let parts = paths::components(cwd);
    let start: usize = paths::components(root).len();
    let ghost relative = components_of(cwd@).skip(start as int);
    let mut current = root.to_owned();
    let mut i: usize = start;
    assert(relative.take(0) =~= Seq::<Seq<char>>::empty());
    while i < parts.len()
        invariant
            start <= i <= parts@.len(),
            parts.deep_view() == components_of(cwd@),
            relative == components_of(cwd@).skip(start as int),
            dirs.deep_view() == descend(root@, relative.take(i - start)),
            dirs.deep_view().len() == i - start,
            current@ == (if dirs.deep_view().len() == 0 {
                root@
            } else {
                dirs.deep_view().last()
            }),
        decreases parts@.len() - i,
    {
        let ghost before = dirs.deep_view();
        assert(relative.take(i + 1 - start).drop_last() =~= relative.take(i - start));
        assert(relative.take(i + 1 - start).last() == parts@[i as int]@);
        current = paths::join(&current, &parts[i]);
        dirs.push(current.clone());
        assert(dirs.deep_view() =~= before.push(current@));
        i += 1;
    }
    assert(relative.take(i - start) =~= relative);
    dirs
}

/// The candidates of the directories below the root, shallowest first.
pub open spec fn candidates_below(dirs: Seq<Seq<char>>, n: int) -> Seq<CandidateModel>
    decreases n,
{
    if n <= 0 {
        Seq::empty()
    } else {
        candidates_below(dirs, n - 1) + candidates_in(
            dirs[n - 1],
            Layer::Directory { depth: (n - 1) as usize },
        )
    }
}

/// Every file that may hold memory, in load order: the user's, the project's, the
/// directories' down to the working directory, and the personal one.
pub open spec fn candidates_of(
    user_dir: Option<Seq<char>>,
    repo_root: Seq<char>,
    cwd: Seq<char>,
) -> Seq<CandidateModel> {
    let user = match user_dir {
        Some(dir) => candidates_in(dir, Layer::User),
        None => Seq::empty(),
    };
    let dirs = dirs_between(repo_root, cwd);
    user + candidates_in(repo_root, Layer::Project) + candidates_below(dirs, dirs.len() as int)
        + seq![candidate(repo_root, "OCTANE.local.md"@, Layer::Local)]
}

fn push_candidate(out: &mut Vec<Candidate>, dir: &str, name: &str, layer: Layer)
    ensures
        final(out).deep_view() == old(out).deep_view().push(candidate(dir@, name@, layer)),
{
    let ghost before = out.deep_view();
    let one = Candidate { layer, path: paths::join(dir, name), base_dir: dir.to_owned() };
    out.push(one);
    assert(out.deep_view() =~= before.push(one.deep_view()));
}

fn push_candidates(out: &mut Vec<Candidate>, dir: &str, layer: Layer)
    ensures
        final(out).deep_view() == old(out).deep_view() + candidates_in(dir@, layer),
{
    let ghost before = out.deep_view();
    push_candidate(out, dir, "AGENTS.md", layer);
    push_candidate(out, dir, "OCTANE.md", layer);
    assert(out.deep_view() =~= before + candidates_in(dir@, layer));
}

/// Every file that may hold memory, in load order.
pub fn candidates(user_config_dir: Option<&str>, repo_root: &str, cwd: &str) -> (r: Vec<Candidate>)
    ensures
        r.deep_view() == candidates_of(
            match user_config_dir {
                Some(dir) => Some(dir@),
                None => None,
            },
            repo_root@,
            cwd@,
        ),
{
    let mut out: Vec<Candidate> = Vec::new();
    assert(out.deep_view() =~= Seq::<CandidateModel>::empty());
    if let Some(dir) = user_config_dir {
        push_candidates(&mut out, dir, Layer::User);
        assert(out.deep_view() =~= candidates_in(dir@, Layer::User));
    }
    push_candidates(&mut out, repo_root, Layer::Project);
    let ghost front = out.deep_view();
    let dirs = intermediate_dirs(repo_root, cwd);
    let ghost below = dirs_between(repo_root@, cwd@);
    let mut i: usize = 0;
    assert(front + Seq::<CandidateModel>::empty() =~= front);
    while i < dirs.len()
        invariant
            i <= dirs@.len(),
            dirs.deep_view() == below,
            out.deep_view() == front + candidates_below(below, i as int),
        decreases dirs@.len() - i,
    {
        assert(below[i as int] == dirs@[i as int]@);
        push_candidates(&mut out, &dirs[i], Layer::Directory { depth: i });
        assert(out.deep_view() =~= front + candidates_below(below, i + 1));
        i += 1;
    }
    let ghost before = out.deep_view();
    push_candidate(&mut out, repo_root, "OCTANE.local.md", Layer::Local);
    assert(out.deep_view() =~= before + seq![
        candidate(repo_root@, "OCTANE.local.md"@, Layer::Local),
    ]);
    out
}

} // verus!
