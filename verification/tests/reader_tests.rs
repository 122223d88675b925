use raggedy::doc::{head_of, read_doc, read_docs};
use raggedy::headings::{extract_headings, is_heading_line, Dialect};
use raggedy::scan::{collect_docs, Entry};
use raggedy::text::split_lines;

#[test]
fn markdown_heading_extraction() {
    let d = read_doc("t.md", "# Title\nsome text\n## Sub\n####nospace");
    assert_eq!(d.headings, vec![String::from("# Title"), String::from("## Sub")]);
}

#[test]
fn asciidoc_ignores_markdown_style_headings() {
    let d = read_doc("t.adoc", "# not a heading\n== Real Heading");
    assert_eq!(d.headings, vec![String::from("== Real Heading")]);
}

#[test]
fn markdown_ignores_asciidoc_style_headings() {
    let d = read_doc("t.md", "== not one here\n# but this is");
    assert_eq!(d.headings, vec![String::from("# but this is")]);
}

#[test]
fn end_to_end_two_files() {
    let tree = vec![
        Entry::File { name: String::from("a.md") },
        Entry::Dir {
            name: String::from("sub"),
            entries: vec![Entry::File { name: String::from("b.adoc") }],
        },
    ];
    let mut paths = collect_docs(&tree);
    paths.sort();
    assert_eq!(paths, vec![String::from("a.md"), String::from("sub/b.adoc")]);

    let inputs = vec![
        (String::from("a.md"), String::from("# Hi\nbody")),
        (String::from("sub/b.adoc"), String::from("== Sec\ntext")),
    ];
    let docs = read_docs(&inputs);
    assert_eq!(docs.len(), 2);

    assert_eq!(docs[0].rel_path, "a.md");
    assert_eq!(docs[0].content, "# Hi\nbody");
    assert_eq!(docs[0].head, "# Hi\nbody");
    assert_eq!(docs[0].headings, vec![String::from("# Hi")]);

    assert_eq!(docs[1].rel_path, "sub/b.adoc");
    assert_eq!(docs[1].content, "== Sec\ntext");
    assert_eq!(docs[1].head, "== Sec\ntext");
    assert_eq!(docs[1].headings, vec![String::from("== Sec")]);
}

#[test]
fn head_counts_characters_not_bytes() {
    let content: String = std::iter::repeat('é').take(600).collect();
    let h = head_of(&content);
    assert_eq!(h.chars().count(), 500);
    let expected: String = content.chars().take(500).collect();
    assert_eq!(h, expected);
}

#[test]
fn head_with_mixed_width_characters() {
    let mut content = String::from("αβγ середина 日本語テキスト ");
    while content.chars().count() < 700 {
        content.push_str("x漢y字 ");
    }
    let h = head_of(&content);
    assert_eq!(h.chars().count(), 500);
    let expected: String = content.chars().take(500).collect();
    assert_eq!(h, expected);
    assert!(content.starts_with(&h));
}

#[test]
fn head_of_short_content_is_the_content() {
    let h = head_of("short text");
    assert_eq!(h, "short text");
    let exactly: String = std::iter::repeat('a').take(500).collect();
    assert_eq!(head_of(&exactly), exactly);
}

#[test]
fn crlf_line_endings_are_handled_like_lines() {
    let lines = split_lines("a\r\nb\rc\nd\r");
    assert_eq!(
        lines,
        vec![String::from("a"), String::from("b\rc"), String::from("d\r")]
    );
    let heads = extract_headings(Dialect::Markdown, "# A\r\n## B");
    assert_eq!(heads, vec![String::from("# A"), String::from("## B")]);
}

#[test]
fn split_lines_edges() {
    assert_eq!(split_lines(""), Vec::<String>::new());
    assert_eq!(split_lines("\n"), vec![String::from("")]);
    assert_eq!(split_lines("a\n"), vec![String::from("a")]);
    assert_eq!(
        split_lines("a\n\nb"),
        vec![String::from("a"), String::from(""), String::from("b")]
    );
}

#[test]
fn heading_line_shapes() {
    assert!(is_heading_line(Dialect::Markdown, "# x"));
    assert!(is_heading_line(Dialect::Markdown, "# "));
    assert!(is_heading_line(Dialect::Markdown, "###\ttabbed"));
    assert!(is_heading_line(Dialect::Markdown, "##\u{00A0}nbsp"));
    assert!(!is_heading_line(Dialect::Markdown, "#"));
    assert!(!is_heading_line(Dialect::Markdown, "####nospace"));
    assert!(!is_heading_line(Dialect::Markdown, " # indented"));
    assert!(!is_heading_line(Dialect::Markdown, ""));
    assert!(!is_heading_line(Dialect::Markdown, "text # inline"));
    assert!(is_heading_line(Dialect::Asciidoc, "== x"));
    assert!(is_heading_line(Dialect::Asciidoc, "= top"));
    assert!(!is_heading_line(Dialect::Asciidoc, "=="));
    assert!(!is_heading_line(Dialect::Asciidoc, "#= x"));
}

#[test]
fn unknown_extension_falls_back_to_markdown_dialect() {
    let d = read_doc("t.weird", "# md heading\n== adoc heading");
    assert_eq!(d.headings, vec![String::from("# md heading")]);
}

#[test]
fn headings_are_verbatim_lines() {
    let content = "= T\nx\n== S\u{3000}wide space\ntail";
    let d = read_doc("a.adoc", content);
    let lines: Vec<&str> = content.lines().collect();
    for h in &d.headings {
        assert!(lines.contains(&h.as_str()));
    }
    assert_eq!(
        d.headings,
        vec![String::from("= T"), String::from("== S\u{3000}wide space")]
    );
}

#[test]
fn reading_twice_yields_identical_records() {
    let rel = "notes/today.adoc";
    let content = "= Day\n\n== Morning\nwork\n";
    let d1 = read_doc(rel, content);
    let d2 = read_doc(rel, content);
    assert_eq!(d1.rel_path, d2.rel_path);
    assert_eq!(d1.content, d2.content);
    assert_eq!(d1.head, d2.head);
    assert_eq!(d1.headings, d2.headings);
}

#[test]
fn record_preserves_content_verbatim() {
    let content = "## A\n\nsome *text* with trailing spaces   \n\tindented\n";
    let d = read_doc("x.md", content);
    assert_eq!(d.content, content);
    assert_eq!(d.head, content);
    assert_eq!(d.headings, vec![String::from("## A")]);
}
