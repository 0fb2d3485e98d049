//! Project memory: imports, layers and the snapshot.

use octane::memory::imports::{normalize, parse_import, resolve_imports, Resolution, MAX_IMPORT_DEPTH};
use octane::memory::loader::{candidates, intermediate_dirs, MemorySnapshot};
use octane::memory::{filenames, Layer, MemoryError, MemoryFile, Origin};
use octane::text_map::TextMap;

/// Resolves imports against files that are there, and says what was inlined.
fn resolve(content: &str, base: &str, root: &str, files: &[(&str, &str)]) -> (String, Vec<String>) {
    let mut known: TextMap<Option<String>> = TextMap::new();
    loop {
        match resolve_imports(content, base, root, &known) {
            Resolution::Needs(path) => {
                let text =
                    files.iter().find(|file| file.0 == path).map(|file| file.1.to_string());
                known.insert(path, text);
            }
            Resolution::Done { text, imported } => return (text, imported),
        }
    }
}

#[test]
fn only_whole_line_references_are_imports() {
    assert_eq!(parse_import("@docs/arch.md").as_deref(), Some("docs/arch.md"));
    assert_eq!(parse_import("  @docs/arch.md  ").as_deref(), Some("docs/arch.md"));
    // Prose must not trigger file reads.
    assert_eq!(parse_import("email me @ foo@bar.com"), None);
    assert_eq!(parse_import("see @docs/arch.md for details"), None);
    assert_eq!(parse_import("regular line"), None);
    assert_eq!(parse_import("@"), None);
    assert_eq!(parse_import("@/etc/passwd"), None);
}

#[test]
fn normalize_is_lexical() {
    assert_eq!(normalize("/a/b/../c"), "/a/c");
    assert_eq!(normalize("/a/./b"), "/a/b");
    assert_eq!(normalize("/a/b/../../../etc"), "/etc");
}

#[test]
fn traversal_out_of_root_is_left_inert() {
    let content = "@../../../../etc/passwd\n";
    // Asked with nothing known: a file that had to be read would be named.
    let known: TextMap<Option<String>> = TextMap::new();
    let Resolution::Done { text, imported } = resolve_imports(content, "/proj/sub", "/proj", &known)
    else {
        panic!("nothing is to be read");
    };

    // Left as literal text, and nothing was read.
    assert!(text.contains("@../../../../etc/passwd"));
    assert!(imported.is_empty());
}

#[test]
fn missing_imports_stay_visible() {
    let (result, imported) = resolve("@docs/nope.md\n", "/nonexistent", "/nonexistent", &[]);
    assert!(result.contains("@docs/nope.md"));
    assert!(imported.is_empty());
}

#[test]
fn prose_passes_through_unchanged() {
    let content = "# Project\n\nUse tabs.\n";
    let (result, _) = resolve(content, "/p", "/p", &[]);
    assert_eq!(result, content);
}

#[test]
fn an_import_is_inlined_and_its_own_imports_too() {
    let files = [("/p/docs/a.md", "A\n@b.md\n"), ("/p/docs/b.md", "B\n")];
    let (result, imported) = resolve("top\n@docs/a.md\nend\n", "/p", "/p", &files);
    assert!(result.starts_with("top\n"));
    assert!(result.contains("A\n"));
    assert!(result.contains("B\n"));
    assert!(result.ends_with("end\n"));
    assert_eq!(imported, vec!["/p/docs/a.md".to_string(), "/p/docs/b.md".to_string()]);
}

#[test]
fn imports_go_only_so_deep() {
    assert_eq!(MAX_IMPORT_DEPTH, 3);
    let files = [
        ("/p/1.md", "@2.md\n"),
        ("/p/2.md", "@3.md\n"),
        ("/p/3.md", "@4.md\n"),
        ("/p/4.md", "too deep\n"),
    ];
    let (result, imported) = resolve("@1.md\n", "/p", "/p", &files);
    assert!(result.contains("@4.md"), "{result}");
    assert!(!result.contains("too deep"));
    assert_eq!(imported.len(), 3);
}

#[test]
fn layers_order_general_before_specific() {
    let mut layers = vec![
        Layer::Local,
        Layer::Directory { depth: 1 },
        Layer::Project,
        Layer::User,
        Layer::Managed,
        Layer::Directory { depth: 0 },
    ];
    layers.sort();
    assert_eq!(
        layers,
        vec![
            Layer::Managed,
            Layer::User,
            Layer::Project,
            Layer::Directory { depth: 0 },
            Layer::Directory { depth: 1 },
            Layer::Local,
        ]
    );
    // The same order as the one that files are loaded in.
    for pair in layers.windows(2) {
        assert!(pair[0].loads_before(pair[1]));
        assert!(!pair[1].loads_before(pair[0]));
    }
}

#[test]
fn intermediate_dirs_walk_root_to_cwd() {
    let dirs = intermediate_dirs("/repo", "/repo/a/b");
    assert_eq!(dirs, vec!["/repo/a".to_string(), "/repo/a/b".to_string()]);
}

#[test]
fn cwd_at_root_contributes_no_extra_dirs() {
    assert!(intermediate_dirs("/repo", "/repo").is_empty());
}

#[test]
fn cwd_outside_root_contributes_nothing() {
    assert!(intermediate_dirs("/repo", "/elsewhere").is_empty());
}

#[test]
fn empty_snapshot_renders_to_nothing() {
    assert!(MemorySnapshot::default().render().is_empty());
}

fn file(layer: Layer, path: &str, content: &str) -> MemoryFile {
    MemoryFile {
        origin: Origin { layer, path: path.into() },
        content: content.into(),
        imported: Vec::new(),
    }
}

#[test]
fn render_fences_each_file_with_its_path() {
    let snapshot =
        MemorySnapshot { files: vec![file(Layer::Project, "/repo/OCTANE.md", "Use tabs.")] };
    let rendered = snapshot.render();
    assert!(rendered.contains(r#"<instructions path="/repo/OCTANE.md">"#));
    assert!(rendered.contains("Use tabs."));
    // The snapshot caveat must be stated, or the model will assume it is live.
    assert!(rendered.contains("snapshot"));
}

#[test]
fn files_are_loaded_general_before_specific() {
    let snapshot = MemorySnapshot::from_files(vec![
        file(Layer::Local, "/repo/local", "l"),
        file(Layer::Directory { depth: 1 }, "/repo/a/b", "d1"),
        file(Layer::User, "/home/u", "u"),
        file(Layer::Directory { depth: 0 }, "/repo/a", "d0"),
        file(Layer::User, "/home/v", "v"),
    ]);
    let paths: Vec<&str> = snapshot.files.iter().map(|file| file.origin.path.as_str()).collect();
    assert_eq!(paths, vec!["/home/u", "/home/v", "/repo/a", "/repo/a/b", "/repo/local"]);
}

#[test]
fn estimates_round_up_to_whole_tokens() {
    assert_eq!(file(Layer::User, "/u", "").estimated_tokens(), 0);
    assert_eq!(file(Layer::User, "/u", "abcd").estimated_tokens(), 1);
    assert_eq!(file(Layer::User, "/u", "abcde").estimated_tokens(), 2);
    assert_eq!(file(Layer::User, "/u", "é").estimated_tokens(), 1);
    let snapshot = MemorySnapshot {
        files: vec![file(Layer::User, "/u", "abcde"), file(Layer::Project, "/p", "abcd")],
    };
    assert_eq!(snapshot.estimated_tokens(), 3);
}

#[test]
fn candidates_come_for_every_layer() {
    let names = filenames();
    let all = candidates(Some("/home/.octane"), "/repo", "/repo/a");
    assert!(all.iter().any(|c| c.layer == Layer::User && c.path == format!("/home/.octane/{}", names[0])));
    assert!(all.iter().any(|c| c.layer == Layer::Project && c.path == format!("/repo/{}", names[0])));
    assert!(all
        .iter()
        .any(|c| c.layer == Layer::Directory { depth: 0 } && c.path == format!("/repo/a/{}", names[0])));
    assert!(all.iter().any(|c| c.layer == Layer::Local));
    assert!(candidates(None, "/repo", "/repo").iter().all(|c| c.layer != Layer::User));
}

#[test]
fn memory_errors_say_where() {
    assert_eq!(
        MemoryError::Io { path: "/p".into(), source: "denied".into() }.to_string().contains("/p"),
        true
    );
    assert!(MemoryError::ImportCycle("/p/a.md".into()).to_string().contains("/p/a.md"));
    let deep = MemoryError::ImportTooDeep { path: "/p/a.md".into(), limit: 3 }.to_string();
    assert!(deep.contains("/p/a.md") && deep.contains('3'));
}
