use glow::source::{
    chunk_allowed, content_length_allowed, github_raw_base, github_readme_name, initial_capacity,
    local_name, plan_from_parts, plan_source, raw_readme_url, remote_name, RepositoryShortcut, SourcePlan,
    MAX_REMOTE_BYTES,
};
use glow::tunnel::UrlParts;

#[test]
fn recognizes_repository_shortcuts() {
    assert!(matches!(
        RepositoryShortcut::parse("github.com/charmbracelet/glow"),
        Some(RepositoryShortcut::GitHub { .. })
    ));
    assert!(matches!(
        RepositoryShortcut::parse("gitlab://group/project"),
        Some(RepositoryShortcut::GitLab { .. })
    ));
    assert!(RepositoryShortcut::parse("https://example.com/readme.md").is_none());
}

#[test]
fn shortcuts_name_owner_repository_and_project() {
    match RepositoryShortcut::parse("github://Owner/tool.git") {
        Some(RepositoryShortcut::GitHub { owner, repo }) => {
            assert_eq!(owner, "Owner");
            assert_eq!(repo, "tool");
        }
        _ => panic!("expected a GitHub shortcut"),
    }
    match RepositoryShortcut::parse("https://gitlab.example.org/group/sub/project") {
        Some(RepositoryShortcut::GitLab { host, project }) => {
            assert_eq!(host, "gitlab.example.org");
            assert_eq!(project, "group/sub/project");
        }
        _ => panic!("expected a GitLab shortcut"),
    }
    assert!(RepositoryShortcut::parse("https://GitHub.com/a/b/c").is_none());
    assert!(RepositoryShortcut::parse("https://gitlab.com/group/project/-/blob/main/README.md").is_none());
}

#[test]
fn repository_requests() {
    let github = RepositoryShortcut::parse("github.com/charmbracelet/glow").expect("shortcut");
    assert_eq!(github.api_url(), "https://api.github.com/repos/charmbracelet/glow/readme");
    let gitlab = RepositoryShortcut::parse("gitlab://group/project").expect("shortcut");
    assert_eq!(gitlab.api_url(), "https://gitlab.com/api/v4/projects/group%2Fproject");
    assert_eq!(github_readme_name("o", "r"), "o/r/README.md");
    assert_eq!(github_raw_base("o", "r"), "https://raw.githubusercontent.com/o/r/HEAD/");
    assert_eq!(
        raw_readme_url("https://gitlab.com/g/p/-/blob/main/README.md"),
        "https://gitlab.com/g/p/-/raw/main/README.md"
    );
}

#[test]
fn document_names() {
    assert_eq!(remote_name("/docs/guide.md"), "guide.md");
    assert_eq!(remote_name("/docs/"), "README.md");
    assert_eq!(remote_name("/"), "README.md");
    assert_eq!(local_name("notes/today.md"), "today.md");
    assert_eq!(local_name(".."), "document.md");
}

#[test]
fn remote_documents_are_limited_to_ten_mebibytes() {
    assert_eq!(MAX_REMOTE_BYTES, 10 * 1024 * 1024);
    assert!(content_length_allowed(None));
    assert!(content_length_allowed(Some(10 * 1024 * 1024)));
    assert!(!content_length_allowed(Some(10 * 1024 * 1024 + 1)));
    assert_eq!(initial_capacity(Some(100)), 100);
    assert_eq!(initial_capacity(Some(u64::MAX)), MAX_REMOTE_BYTES);
    assert_eq!(initial_capacity(None), 0);
    assert!(chunk_allowed(MAX_REMOTE_BYTES - 10, 10));
    assert!(!chunk_allowed(MAX_REMOTE_BYTES - 10, 11));
    assert!(!chunk_allowed(usize::MAX, 1));
}

#[test]
fn sources_are_planned_in_order() {
    assert!(matches!(plan_source("-", true), SourcePlan::Stdin));
    assert!(matches!(plan_source("notes.md", true), SourcePlan::File));
    assert!(matches!(plan_source("github.com/a/b", false), SourcePlan::Repository(_)));
    assert!(matches!(plan_source("https://example.com/a.md", false), SourcePlan::Remote));
    match plan_source("ftp://example.com/a.md", false) {
        SourcePlan::Refused(m) => assert_eq!(m, "ftp is not a supported protocol"),
        _ => panic!("expected a refusal"),
    }
    match plan_source("missing.md", false) {
        SourcePlan::Refused(m) => assert_eq!(m, "source not found: missing.md"),
        _ => panic!("expected a refusal"),
    }
}

fn parts_with_scheme(scheme: &str) -> UrlParts {
    UrlParts {
        scheme: scheme.to_string(),
        username: String::new(),
        password: None,
        host: Some("example.com".to_string()),
        port: None,
        path: "/a.md".to_string(),
        query: None,
        fragment: None,
    }
}

#[test]
fn plans_follow_the_parsed_parts() {
    let shortcut = RepositoryShortcut::GitHub { owner: "a".to_string(), repo: "b".to_string() };
    assert!(matches!(plan_from_parts("-", false, None, None), SourcePlan::Stdin));
    assert!(matches!(
        plan_from_parts("x", false, Some(shortcut), Some(parts_with_scheme("https"))),
        SourcePlan::Repository(_)
    ));
    assert!(matches!(
        plan_from_parts("x", false, None, Some(parts_with_scheme("http"))),
        SourcePlan::Remote
    ));
    match plan_from_parts("x", false, None, Some(parts_with_scheme("gopher"))) {
        SourcePlan::Refused(m) => assert_eq!(m, "gopher is not a supported protocol"),
        _ => panic!("expected a refusal"),
    }
    match plan_from_parts("x", false, None, None) {
        SourcePlan::Refused(m) => assert_eq!(m, "source not found: x"),
        _ => panic!("expected a refusal"),
    }
}
