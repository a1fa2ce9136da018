use perfcheck_lint::lint_path;
use perfcheck_lint::registry;
use perfcheck_lint::walk::has_source_extension;
use perfcheck_lint::walk::is_build_dir_name;
use perfcheck_lint::walk::Entry;

const FLAGGED: &str = "use std::collections::LinkedList;\n";

fn file(name: &str, path: &str, text: &str) -> Entry {
    Entry::File { name: name.to_string(), path: path.to_string(), text: text.to_string() }
}

fn dir(name: &str, entries: Vec<Entry>) -> Entry {
    Entry::Dir { name: name.to_string(), entries }
}

fn paths(root: &Entry) -> Vec<String> {
    lint_path(root, &registry()).into_iter().map(|d| d.path).collect()
}

#[test]
fn source_files_are_scanned_in_the_order_of_the_tree() {
    let root = dir(
        "project",
        vec![
            file("b.rs", "project/b.rs", FLAGGED),
            dir("src", vec![file("z.rs", "project/src/z.rs", FLAGGED), file("a.rs", "project/src/a.rs", FLAGGED)]),
            file("a.rs", "project/a.rs", FLAGGED),
            dir("empty", vec![]),
        ],
    );
    assert_eq!(paths(&root), vec!["project/b.rs", "project/src/z.rs", "project/src/a.rs", "project/a.rs"]);
}

#[test]
fn what_lies_in_a_build_directory_is_left_out() {
    let root = dir(
        "project",
        vec![
            dir("target", vec![file("gen.rs", "project/target/gen.rs", FLAGGED), dir("debug", vec![file("x.rs", "project/target/debug/x.rs", FLAGGED)])]),
            dir("src", vec![dir("target", vec![file("y.rs", "project/src/target/y.rs", FLAGGED)]), file("lib.rs", "project/src/lib.rs", FLAGGED)]),
            dir("targets", vec![file("t.rs", "project/targets/t.rs", FLAGGED)]),
            dir("Target", vec![file("u.rs", "project/Target/u.rs", FLAGGED)]),
        ],
    );
    assert_eq!(paths(&root), vec!["project/src/lib.rs", "project/targets/t.rs", "project/Target/u.rs"]);
    let cleaned = dir(
        "project",
        vec![
            dir("target", vec![]),
            dir("src", vec![dir("target", vec![]), file("lib.rs", "project/src/lib.rs", FLAGGED)]),
            dir("targets", vec![file("t.rs", "project/targets/t.rs", FLAGGED)]),
            dir("Target", vec![file("u.rs", "project/Target/u.rs", FLAGGED)]),
        ],
    );
    assert_eq!(lint_path(&root, &registry()), lint_path(&cleaned, &registry()));
    assert_eq!(paths(&dir("target", vec![file("a.rs", "target/a.rs", FLAGGED)])), Vec::<String>::new());
}

#[test]
fn only_source_files_are_scanned() {
    let root = dir(
        "",
        vec![
            file("notes.txt", "notes.txt", FLAGGED),
            file("main.rs", "main.rs", FLAGGED),
            file("rs", "rs", FLAGGED),
            file(".rs", ".rs", FLAGGED),
            file("a.RS", "a.RS", FLAGGED),
            file("a.rs.bak", "a.rs.bak", FLAGGED),
            file("a.b.rs", "a.b.rs", FLAGGED),
            file("clean.rs", "clean.rs", "fn main() {}\n"),
        ],
    );
    assert_eq!(paths(&root), vec!["main.rs", "a.b.rs"]);
    assert_eq!(paths(&file("one.rs", "some/where/one.rs", FLAGGED)), vec!["some/where/one.rs"]);
}

#[test]
fn names_are_judged_by_their_last_extension() {
    assert!(has_source_extension("a.rs"));
    assert!(has_source_extension("..rs"));
    assert!(has_source_extension(".hidden.rs"));
    assert!(has_source_extension("a.tar.rs"));
    assert!(!has_source_extension(".rs"));
    assert!(!has_source_extension("rs"));
    assert!(!has_source_extension("a.rs."));
    assert!(!has_source_extension("a.rsx"));
    assert!(!has_source_extension("a.r"));
    assert!(!has_source_extension(""));
    assert!(!has_source_extension("a."));
    assert!(is_build_dir_name("target"));
    assert!(!is_build_dir_name("target "));
    assert!(!is_build_dir_name("targe"));
    assert!(!is_build_dir_name(""));
}

#[test]
fn diagnostics_of_a_tree_are_those_of_its_files() {
    let text = "let mut s = String::new();\nloop {\n    s += x;\n}\n";
    let root = dir("p", vec![file("a.rs", "p/a.rs", text), file("b.rs", "p/b.rs", FLAGGED)]);
    let registry = registry();
    let mut expected = perfcheck_lint::lint_source(text, "p/a.rs", &registry);
    expected.extend(perfcheck_lint::lint_source(FLAGGED, "p/b.rs", &registry));
    assert_eq!(lint_path(&root, &registry), expected);
    assert_eq!(expected.len(), 2);
}
