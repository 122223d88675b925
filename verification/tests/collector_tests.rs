use raggedy::scan::{collect_docs, Entry};

fn file(name: &str) -> Entry {
    Entry::File { name: String::from(name) }
}

fn dir(name: &str, entries: Vec<Entry>) -> Entry {
    Entry::Dir { name: String::from(name), entries }
}

#[test]
fn only_non_doc_files_collect_nothing() {
    let tree = vec![
        file("a.txt"),
        file("b.rs"),
        file("noext"),
        dir("sub", vec![file("c.png"), dir("deeper", vec![file("d.tex")])]),
    ];
    let paths = collect_docs(&tree);
    assert!(paths.is_empty());
}

#[test]
fn empty_tree_collects_nothing() {
    let tree: Vec<Entry> = Vec::new();
    let paths = collect_docs(&tree);
    assert!(paths.is_empty());
}

#[test]
fn each_doc_file_collected_exactly_once() {
    let tree = vec![
        file("a.md"),
        file("b.txt"),
        dir(
            "sub",
            vec![
                file("c.adoc"),
                dir("deep", vec![file("d.md"), file("skip.rs")]),
                file("e.json"),
            ],
        ),
    ];
    let mut paths = collect_docs(&tree);
    paths.sort();
    assert_eq!(
        paths,
        vec![
            String::from("a.md"),
            String::from("sub/c.adoc"),
            String::from("sub/deep/d.md"),
        ]
    );
}

fn sample_tree() -> Vec<Entry> {
    vec![
        dir("docs", vec![file("guide.adoc"), file("notes.txt")]),
        file("readme.md"),
    ]
}

#[test]
fn scan_twice_yields_identical_paths() {
    let first = collect_docs(&sample_tree());
    let second = collect_docs(&sample_tree());
    assert_eq!(first, second);
    let mut sorted = first.clone();
    sorted.sort();
    assert_eq!(sorted, vec![String::from("docs/guide.adoc"), String::from("readme.md")]);
}

#[test]
fn extension_match_is_case_sensitive_and_exact() {
    let tree = vec![
        file("x.MD"),
        file("y.Adoc"),
        file("z.markdown"),
        file("w.adocx"),
        file("ok.md"),
    ];
    let paths = collect_docs(&tree);
    assert_eq!(paths, vec![String::from("ok.md")]);
}

#[test]
fn hidden_files_and_bare_names_are_skipped() {
    let tree = vec![
        file(".md"),
        file(".adoc"),
        file("md"),
        file("adoc"),
        file("a."),
        file(".hidden.md"),
    ];
    let paths = collect_docs(&tree);
    assert_eq!(paths, vec![String::from(".hidden.md")]);
}

#[test]
fn same_name_in_different_directories_gives_distinct_paths() {
    let tree = vec![
        dir("a", vec![file("x.md")]),
        dir("b", vec![file("x.md")]),
        file("x.md"),
    ];
    let mut paths = collect_docs(&tree);
    paths.sort();
    assert_eq!(
        paths,
        vec![String::from("a/x.md"), String::from("b/x.md"), String::from("x.md")]
    );
    paths.dedup();
    assert_eq!(paths.len(), 3);
}

#[test]
fn deeply_nested_doc_is_found() {
    let tree = vec![dir(
        "a",
        vec![dir("b", vec![dir("c", vec![dir("d", vec![file("deep.adoc")])])])],
    )];
    let paths = collect_docs(&tree);
    assert_eq!(paths, vec![String::from("a/b/c/d/deep.adoc")]);
}
