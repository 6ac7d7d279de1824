use glow::document::{Document, Timestamp};
use glow::cli::IpAddress;
use glow::web::{
    missing_security_headers, poll_interval_ms, ServeOptions, ShareOptions, allowed_asset_content_type, display_root_name, error_page_body, next_revision, preferred_route,
    relative_key, render_document_page, render_empty_page, render_navigation, route_key, same_path,
    SiteDocument,
};

#[test]
fn route_decoding_rejects_traversal_and_cross_platform_separators() {
    assert_eq!(
        route_key("/doc/guide%2Fintro.md", "/doc/"),
        Some("guide/intro.md".to_owned())
    );
    assert_eq!(route_key("/doc/%2e%2e/secret.md", "/doc/"), None);
    assert_eq!(route_key("/doc/guide\\secret.md", "/doc/"), None);
    assert_eq!(route_key("/doc//secret.md", "/doc/"), None);
}

#[test]
fn asset_extensions_are_an_explicit_allowlist() {
    assert_eq!(
        allowed_asset_content_type("diagram.SVG"),
        Some("image/svg+xml")
    );
    assert_eq!(
        allowed_asset_content_type("manual.pdf"),
        Some("application/pdf")
    );
    assert_eq!(allowed_asset_content_type("secrets.env"), None);
    assert_eq!(allowed_asset_content_type("page.html"), None);
}

#[test]
fn route_keys_need_the_prefix_valid_utf8_and_plain_segments() {
    assert_eq!(route_key("/asset/images/logo.png", "/asset/"), Some("images/logo.png".to_owned()));
    assert_eq!(route_key("/asset/a%20b.png", "/asset/"), Some("a b.png".to_owned()));
    assert_eq!(route_key("/other/a.md", "/doc/"), None);
    assert_eq!(route_key("/doc/", "/doc/"), None);
    assert_eq!(route_key("/doc/%ff.md", "/doc/"), None);
    assert_eq!(route_key("/doc/a/./b.md", "/doc/"), None);
    assert_eq!(route_key("/doc/a/", "/doc/"), None);
    assert_eq!(route_key("/doc/a%00b", "/doc/"), None);
}

#[test]
fn relative_keys_join_plain_components() {
    assert_eq!(relative_key("guide/intro.md"), Some("guide/intro.md".to_owned()));
    assert_eq!(relative_key("guide//a/./b.md"), Some("guide/a/b.md".to_owned()));
    assert_eq!(relative_key("./a.md"), None);
    assert_eq!(relative_key("/etc/passwd"), None);
    assert_eq!(relative_key("a/../b.md"), None);
    assert_eq!(relative_key("a\\b.md"), None);
    assert_eq!(relative_key(""), None);
}

#[test]
fn asset_types_cover_every_listed_image() {
    assert_eq!(allowed_asset_content_type("a/b/photo.JPG"), Some("image/jpeg"));
    assert_eq!(allowed_asset_content_type("photo.jpeg"), Some("image/jpeg"));
    assert_eq!(allowed_asset_content_type("icon.ico"), Some("image/x-icon"));
    assert_eq!(allowed_asset_content_type("x.webp"), Some("image/webp"));
    assert_eq!(allowed_asset_content_type(".png"), None);
    assert_eq!(allowed_asset_content_type("png"), None);
}

#[test]
fn root_names_fall_back_to_documentation() {
    assert_eq!(display_root_name("/home/me/docs"), "docs");
    assert_eq!(display_root_name("/"), "Documentation");
    assert_eq!(display_root_name("docs/.."), "Documentation");
}

fn doc(key: &str, title: &str) -> SiteDocument {
    SiteDocument {
        key: key.to_owned(),
        relative: key.to_owned(),
        route: key.to_owned(),
        title: title.to_owned(),
    }
}

#[test]
fn the_site_opens_with_the_preferred_document_or_the_first() {
    let docs = vec![doc("a.md", "A"), doc("README.md", "Home")];
    assert_eq!(preferred_route(Some("README.md".to_owned()), &docs), Some("README.md".to_owned()));
    assert_eq!(preferred_route(Some("missing.md".to_owned()), &docs), Some("a.md".to_owned()));
    assert_eq!(preferred_route(None, &docs), Some("a.md".to_owned()));
    assert_eq!(preferred_route(None, &Vec::new()), None);
}

#[test]
fn revisions_advance_only_on_change() {
    assert_eq!(next_revision(7, 3, 7), 3);
    assert_eq!(next_revision(7, 3, 8), 4);
    assert_eq!(next_revision(7, u64::MAX, 8), u64::MAX);
}

#[test]
fn navigation_marks_the_open_document_and_indents_by_depth() {
    let docs = vec![doc("README.md", "Home"), doc("guide/deep/api.md", "API <Ref>")];
    let nav = render_navigation(&docs, "guide//deep/api.md");
    assert_eq!(
        nav,
        "<a class=\"doc-link depth-0\" href=\"/doc/README.md\" data-search=\"home readme.md\" title=\"README.md\">Home</a>\
<a class=\"doc-link depth-2\" href=\"/doc/guide/deep/api.md\" data-search=\"api &lt;ref&gt; guide/deep/api.md\" title=\"guide/deep/api.md\" aria-current=\"page\">API &lt;Ref&gt;</a>"
    );
    assert!(same_path("a//b", "a/b"));
    assert!(!same_path("/a", "a"));
}

#[test]
fn pages_escape_names_and_carry_the_revision() {
    let docs = vec![doc("README.md", "Home")];
    let page = render_document_page("my <docs>", &docs[0], &docs, 42, "<p>hi</p>");
    assert!(page.starts_with("<!doctype html>\n<html lang=\"en\">"));
    assert!(page.contains("<title>Home · my &lt;docs&gt;</title>"));
    assert!(page.contains("data-revision=\"42\""));
    assert!(page.contains("title=\"my &lt;docs&gt;\""));
    assert!(page.contains("<article class=\"document\" data-document><p>hi</p></article>"));
    assert!(page.ends_with("</html>"));
    let empty = render_empty_page("docs", 5);
    assert!(empty.contains("<title>No Markdown · docs</title>"));
    assert!(empty.contains("data-revision=\"5\""));
    let error = error_page_body("Not found", "That file is not in this documentation index.");
    assert!(error.contains("<title>Not found</title>"));
    assert!(error.contains("<h1>Not found</h1><p>That file is not in this documentation index.</p>"));
}

#[test]
fn security_headers_are_added_unless_already_set() {
    let all = missing_security_headers(&Vec::new());
    assert_eq!(all.len(), 8);
    assert_eq!(all[0].0, "content-security-policy");
    assert!(all[0].1.contains("script-src 'self'"));
    assert!(all.iter().any(|(name, value)| name == "x-content-type-options" && value == "nosniff"));
    let some = missing_security_headers(&vec!["content-security-policy".to_string(), "cache-control".to_string()]);
    assert_eq!(some.len(), 6);
    assert!(!some.iter().any(|(name, _)| name == "content-security-policy" || name == "cache-control"));
}

#[test]
fn serve_options_default_to_loopback_and_sharing_forces_it() {
    let options = ServeOptions::new("docs".to_string()).with_port(8080).with_hidden(true);
    assert_eq!(options.bind_ip, IpAddress::V4(127, 0, 0, 1));
    assert_eq!(options.port, 8080);
    assert!(options.include_hidden);
    assert_eq!(options.poll_interval_ms, 900);
    let mut share = ShareOptions::new("docs".to_string());
    share.server = share.server.with_bind_ip(IpAddress::V4(0, 0, 0, 0));
    assert_eq!(share.tunnel.executable, "cloudflared");
    assert_eq!(share.tunnel.startup_timeout_secs, 30);
    assert_eq!(share.loopback_only().server.bind_ip, IpAddress::V4(127, 0, 0, 1));
    assert_eq!(poll_interval_ms(10), 250);
    assert_eq!(poll_interval_ms(900), 900);
}

#[test]
fn document_routes_lead_back_to_their_keys() {
    for path in ["guide/a b+c%.md", "README.md", "docs/ünï/ça.md"] {
        let d = Document::from_contents(
            format!("/r/{path}"),
            path.to_string(),
            "# T",
            Timestamp { secs: 0, nanos: 0 },
            3,
        );
        let uri = format!("/doc/{}", d.route());
        assert_eq!(route_key(&uri, "/doc/"), relative_key(path));
        assert_eq!(route_key(&uri, "/doc/"), Some(path.to_string()));
    }
}

#[test]
fn routes_hold_only_plain_characters_one_segment_per_component() {
    let d = Document::from_contents(
        "/r/guide/a b+c%/ça.md".to_string(),
        "guide/a b+c%/ça.md".to_string(),
        "# T",
        Timestamp { secs: 0, nanos: 0 },
        3,
    );
    let route = d.route();
    assert!(route
        .chars()
        .all(|c| c.is_ascii_alphanumeric() || "*._-%/".contains(c)));
    assert_eq!(route.split('/').count(), 3);
    assert_eq!(route, "guide/a%20b%2Bc%25/%C3%A7a.md");
}
