use glow::render::markdown::{MdEvent, MdTag, MdTagEnd};
use glow::render::rewrite::{
    fill_slots, finish_document, prepare_document, prepare_html, replace_first, rewrite_destination, rewrite_document_events,
    RenderSlot, SlotRequest,
};

#[test]
fn rewrites_relative_document_and_image_links() {
    assert_eq!(rewrite_destination("../next.md#part", "guide/start.md", false), "/doc/next.md#part");
    assert_eq!(
        rewrite_destination("images/logo.png", "guide/start.md", true),
        "/asset/guide/images/logo.png"
    );
}

#[test]
fn blocks_root_escape() {
    assert_eq!(rewrite_destination("../../.env", "guide/start.md", false), "#");
    assert_eq!(rewrite_destination("/etc/passwd", "a.md", false), "#");
    assert_eq!(rewrite_destination("//evil.test/x", "a.md", false), "#");
    assert_eq!(rewrite_destination("%2e%2e/%2e%2e/x.md", "a/b.md", false), "#");
}

#[test]
fn keeps_external_links_and_fragments() {
    assert_eq!(rewrite_destination("  https://example.com/x ", "a.md", false), "https://example.com/x");
    assert_eq!(rewrite_destination("#section", "a.md", false), "#section");
    assert_eq!(rewrite_destination("mailto:me@example.com", "a.md", false), "mailto:me@example.com");
}

#[test]
fn encodes_path_components_and_keeps_queries() {
    assert_eq!(rewrite_destination("my%20notes.md?x=1", "", false), "/doc/my%20notes.md?x=1");
    assert_eq!(rewrite_destination("./a/./b.MD", "c.md", false), "/doc/a/b.MD");
    assert_eq!(rewrite_destination("paper.pdf", "docs/x.md", false), "/asset/docs/paper.pdf");
}

#[test]
fn raw_html_becomes_text_and_math_gets_slots() {
    let (events, slots) = prepare_document("Hi <b>x</b> $a^2$\n\n$$b$$\n", "m.md");
    assert!(!events.iter().any(|e| matches!(e, MdEvent::InlineHtml(_))));
    assert!(events.iter().any(|e| matches!(e, MdEvent::Text(t) if t == "<b>")));
    assert_eq!(slots.len(), 2);
    match &slots[0] {
        SlotRequest::Math { marker, source, display } => {
            assert_eq!(marker, "<span id=\"glow-render-slot-0\"></span>");
            assert_eq!(source, "a^2");
            assert!(!display);
        }
        _ => panic!("expected a formula"),
    }
    match &slots[1] {
        SlotRequest::Math { source, display, .. } => {
            assert_eq!(source, "b");
            assert!(*display);
        }
        _ => panic!("expected a formula"),
    }
}

#[test]
fn mermaid_blocks_are_collected_into_a_block_slot() {
    let events = vec![
        MdEvent::Start(MdTag::CodeBlock(Some("mermaid".to_string()))),
        MdEvent::Text("graph TD\n".to_string()),
        MdEvent::Text("A-->B\n".to_string()),
        MdEvent::End(MdTagEnd::CodeBlock),
        MdEvent::Start(MdTag::CodeBlock(Some("rust".to_string()))),
    ];
    let (out, slots) = rewrite_document_events(events, "x.md");
    assert_eq!(out.len(), 2);
    assert!(matches!(&out[0], MdEvent::Html(h) if h == "<div id=\"glow-render-slot-0\"></div>"));
    assert!(matches!(&out[1], MdEvent::Start(MdTag::CodeBlock(Some(i))) if i == "rust"));
    match &slots[0] {
        SlotRequest::Mermaid { source, .. } => assert_eq!(source, "graph TD\nA-->B\n"),
        _ => panic!("expected a diagram"),
    }
}

#[test]
fn slots_are_filled_after_sanitising() {
    let slots = vec![RenderSlot {
        marker: "<span id=\"glow-render-slot-0\"></span>".to_string(),
        html: "<math><mi>x</mi></math>".to_string(),
    }];
    let html = finish_document(
        "<p>a <span id=\"glow-render-slot-0\"></span><script>alert(1)</script></p>",
        &slots,
    );
    assert_eq!(html, "<p>a <math><mi>x</mi></math></p>");
}

#[test]
fn replace_first_replaces_once() {
    assert_eq!(replace_first("a-b-c", "-", "+"), "a+b-c");
    assert_eq!(replace_first("abc", "x", "+"), "abc");
    assert_eq!(replace_first("abc", "", "+"), "+abc");
}

#[test]
fn slots_are_filled_in_order_at_their_first_marker() {
    let slots = vec![
        RenderSlot { marker: "@1@".to_string(), html: "<b>one</b>".to_string() },
        RenderSlot { marker: "@2@".to_string(), html: "<i>two</i>".to_string() },
    ];
    assert_eq!(fill_slots("a @2@ b @1@ c @1@", &slots), "a <i>two</i> b <b>one</b> c @1@");
    assert_eq!(fill_slots("nothing here", &slots), "nothing here");
    assert_eq!(fill_slots("x @1@", &Vec::new()), "x @1@");
}

#[test]
fn documents_are_written_as_html_with_their_slots() {
    let markdown = "---\ntitle: x\n---\n## Two\n\n| a | b |\n|:--|--:|\n| 1 | 2 |\n\nSee [next](next.md) and <b>raw</b>, $x$.\n";
    let (html, slots) = prepare_html(markdown, "guide/start.md");
    assert!(html.starts_with("<h2>Two</h2>\n"));
    assert!(html.contains("<th style=\"text-align: left\">a</th>"));
    assert!(html.contains("<td style=\"text-align: right\">2</td>"));
    assert!(html.contains("<a href=\"/doc/guide/next.md\">next</a>"));
    assert!(html.contains("&lt;b&gt;raw&lt;/b&gt;"));
    assert!(html.contains("<span id=\"glow-render-slot-0\"></span>"));
    assert_eq!(slots.len(), 1);
    assert!(!html.contains("title: x"));
}

/// The web page of a document without formulas or diagrams: its HTML, sanitised, with
/// no slot to fill.
fn render_html(markdown: &str, current: &str) -> String {
    let (html, slots) = prepare_html(markdown, current);
    assert!(slots.is_empty());
    finish_document(&html, &Vec::new())
}

#[test]
fn blocks_root_escape_and_raw_html() {
    let html = render_html("[secret](../../.env) <script>alert(1)</script>", "guide/start.md");
    assert!(html.contains("href=\"#\""));
    assert!(!html.contains("<script>"));
}

#[test]
fn leaves_non_mermaid_code_fences_as_code() {
    let html = render_html("```rust\nfn main() {}\n```", "code.md");
    assert!(html.contains("<pre><code class=\"language-rust\">"));
    assert!(!html.contains("class=\"diagram\""));
}

#[test]
fn diagrams_are_embedded_as_base64_images() {
    let html = glow::render::html::mermaid_figure("graph TD", "<svg>", "<svg/>");
    assert!(html.contains("data:image/svg+xml;base64,PHN2Zz4="));
    assert!(html.contains("data:image/svg+xml;base64,PHN2Zy8+"));
}
