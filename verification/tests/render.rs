use glow::render::{is_mermaid_language, Theme};

#[test]
fn recognizes_common_mermaid_fence_aliases() {
    for language in [
        "mermaid",
        "Mermaid",
        "mmd",
        "mermaidjs",
        "mermaid-js",
        "{.mermaid}",
        "language-mermaid",
    ] {
        assert!(is_mermaid_language(language), "{language}");
    }
    assert!(!is_mermaid_language("javascript"));
}

#[test]
fn themes_parse_and_resolve() {
    assert_eq!(Theme::parse("LiGhT"), Ok(Theme::Light));
    assert_eq!(
        Theme::parse("Blue"),
        Err("unknown theme 'blue'; use auto, dark, or light".to_string())
    );
    assert_eq!(Theme::Auto.resolved("15;0"), Theme::Dark);
    assert_eq!(Theme::Auto.resolved("0;15"), Theme::Light);
    assert_eq!(Theme::Auto.resolved("0;8"), Theme::Dark);
    assert_eq!(Theme::Auto.resolved(""), Theme::Dark);
    assert_eq!(Theme::Auto.resolved("7;+300"), Theme::Dark);
    assert_eq!(Theme::Light.resolved("0;0"), Theme::Light);
}
