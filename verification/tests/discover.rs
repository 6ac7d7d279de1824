use glow::discover::{DocumentIndex, ScanOptions};
use glow::document::{Document, Timestamp};

fn document(relative: &str, contents: &str) -> Document {
    Document::from_contents(
        format!("/docs/{relative}"),
        relative.to_string(),
        contents,
        Timestamp { secs: 1, nanos: 2 },
        contents.len() as u64,
    )
}

fn index(paths: &[(&str, &str)]) -> DocumentIndex {
    DocumentIndex::from_documents(
        "/docs".to_string(),
        paths.iter().map(|(path, contents)| document(path, contents)).collect(),
    )
}

#[test]
fn scanning_defaults_hide_ignored_and_hidden_files() {
    let options = ScanOptions::default();
    assert!(!options.include_hidden);
    assert!(options.respect_gitignore);
}

#[test]
fn documents_are_sorted_by_lower_cased_path_and_folders_collected() {
    let index = index(&[
        ("b.md", "# B"),
        ("Guide/Zeta.md", "# Z"),
        ("a.md", "# A"),
        ("guide/deep/x.md", "# X"),
    ]);
    let paths: Vec<&str> = index.documents.iter().map(|d| d.relative_path.as_str()).collect();
    assert_eq!(paths, vec!["a.md", "b.md", "guide/deep/x.md", "Guide/Zeta.md"]);
    assert_eq!(index.folders, vec!["", "Guide", "guide", "guide/deep"]);
}

#[test]
fn the_root_readme_is_preferred() {
    let index = index(&[("a.md", "# A"), ("docs/README.md", "# Nested"), ("ReadMe.markdown", "# Home")]);
    assert_eq!(index.preferred_document().map(|d| d.relative_path.as_str()), Some("ReadMe.markdown"));
    let without = index_without_readme();
    assert_eq!(without.preferred_document().map(|d| d.relative_path.as_str()), Some("a.md"));
    assert!(DocumentIndex::from_documents("/".to_string(), Vec::new()).preferred_document().is_none());
}

fn index_without_readme() -> DocumentIndex {
    index(&[("z.md", "# Z"), ("a.md", "# A")])
}

#[test]
fn every_document_route_is_found_again() {
    let index = index(&[("my notes.md", "# Notes"), ("guide/a+b.md", "# Plus"), ("x.md", "# X")]);
    for document in &index.documents {
        let route = document.route();
        let found = index.find_route(&route).expect("route of an indexed document");
        assert_eq!(found.relative_path, document.relative_path);
    }
    assert_eq!(index.documents[1].route(), "my%20notes.md");
    assert_eq!(
        index.find_route("guide%2Fa%2Bb.md").map(|d| d.relative_path.as_str()),
        Some("guide/a+b.md")
    );
    assert!(index.find_route("missing.md").is_none());
}

#[test]
fn titles_fall_back_to_the_file_stem() {
    assert_eq!(document("guide/getting-started_now.md", "no heading").title, "getting started now");
    assert_eq!(document("a.md", "---\ntitle: x\n---\n# Real").title, "Real");
}

#[test]
fn every_document_route_leads_back_to_it() {
    let paths = ["a b+c%.md", "guide/ünï/ça.md", "guide/x.md", "README.md"];
    let index = DocumentIndex::from_documents(
        "/docs".to_string(),
        paths.iter().map(|p| document(p, "# T")).collect(),
    );
    for d in &index.documents {
        let found = index.find_route(&d.route()).expect("the route is found");
        assert_eq!(found.relative_path, d.relative_path);
    }
}
