use glow::document::{is_markdown, strip_frontmatter, title_from_markdown, Document, Timestamp};

#[test]
fn strips_frontmatter_only_at_the_start() {
    assert_eq!(strip_frontmatter("---\ntitle: X\n---\n# Hello"), "# Hello");
    assert_eq!(
        strip_frontmatter("intro\n---\nvalue\n---"),
        "intro\n---\nvalue\n---"
    );
}

#[test]
fn recognizes_markdown_case_insensitively() {
    assert!(is_markdown("README.MD"));
    assert!(is_markdown("guide.markdown"));
    assert!(!is_markdown("main.rs"));
}

#[test]
fn frontmatter_strip_handles_bom_crlf_and_unclosed_blocks() {
    assert_eq!(strip_frontmatter("\u{feff}---\r\na: 1\r\n---\r\nBody"), "Body");
    assert_eq!(strip_frontmatter("---\nnever closed"), "---\nnever closed");
    assert_eq!(strip_frontmatter("no newline"), "no newline");
    assert_eq!(strip_frontmatter("---\n---"), "");
}

#[test]
fn markdown_recognition_follows_path_rules() {
    assert!(is_markdown("docs/a.mdown"));
    assert!(is_markdown("x.MkDn"));
    assert!(is_markdown("dir/page.mkd/"));
    assert!(!is_markdown(".md"));
    assert!(!is_markdown("notes.txt"));
    assert!(!is_markdown("a/.."));
    assert!(!is_markdown(""));
}

#[test]
fn titles_come_from_the_first_heading_after_frontmatter() {
    assert_eq!(title_from_markdown("---\ntitle: X\n---\n\n## Hello ##\n# Later").as_deref(), Some("Hello"));
    assert_eq!(title_from_markdown("text\n#\n#   Real  # ").as_deref(), Some("Real"));
    assert_eq!(title_from_markdown("no heading here"), None);
}

#[test]
fn document_titles_fall_back_to_the_file_stem() {
    let t = Timestamp { secs: 1, nanos: 0 };
    let d = Document::from_contents("/r/my-first_note.md".to_string(), "my-first_note.md".to_string(), "plain", t, 5);
    assert_eq!(d.title, "my first note");
    let d = Document::from_contents("/r/a.md".to_string(), "a.md".to_string(), "# Hi", t, 4);
    assert_eq!(d.title, "Hi");
}

#[test]
fn routes_encode_each_segment() {
    let t = Timestamp { secs: 0, nanos: 0 };
    let d = Document::from_contents("/r/guide/a b+c.md".to_string(), "guide/a b+c.md".to_string(), "", t, 0);
    assert_eq!(d.route(), "guide/a%20b%2Bc.md");
    let d = Document::from_contents("/r/é.md".to_string(), "é.md".to_string(), "", t, 0);
    assert_eq!(d.route(), "%C3%A9.md");
}

#[test]
fn frontmatter_stripping_keeps_a_suffix_of_the_text() {
    assert_eq!(strip_frontmatter("\u{feff}---\na: 1\n---\nbody\n---\nmore"), "body\n---\nmore");
    assert_eq!(strip_frontmatter("\u{feff}---\nnever closed"), "---\nnever closed");
    assert_eq!(strip_frontmatter("text\n---\nx\n---\n"), "text\n---\nx\n---\n");
}
