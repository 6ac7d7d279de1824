use glow::render::style::{Line, Palette};
use glow::render::terminal::{render_ansi, render_lines, render_lines_with_options, TerminalRenderOptions};
use glow::render::Theme;

fn joined(lines: &[Line]) -> String {
    lines
        .iter()
        .map(|line| {
            line.spans
                .iter()
                .map(|span| span.content.as_str())
                .collect::<String>()
        })
        .collect::<Vec<_>>()
        .join("\n")
}

#[test]
fn renders_headings_lists_and_code() {
    let rendered = render_ansi(
        "# Hello\n\n- one\n- two\n\n```rust\nfn main() {}\n```",
        TerminalRenderOptions {
            width: 80,
            theme: Theme::Dark,
            line_numbers: true,
            preserve_newlines: false,
        },
        false,
    );
    assert!(rendered.contains("▌ Hello"));
    assert!(rendered.contains("• one"));
    assert!(rendered.contains("fn main() {}"));
    assert!(rendered.contains("1 │"));
}

#[test]
fn wraps_cjk_by_display_width() {
    let lines = render_lines("你好世界你好世界", 8, Theme::Dark);
    assert!(lines.len() >= 2);
    assert!(lines.iter().all(|line| line.width() <= 8));
}

#[test]
fn preserves_and_styles_inline_and_display_latex_source() {
    let markdown = "Energy is $E = mc^2$.\n\n$$\n\\frac{1}{n} \\sum_{i=1}^{n} x_i\n$$";
    let lines = render_lines(markdown, 100, Theme::Dark);
    let rendered = joined(&lines);

    assert!(rendered.contains("Energy is $E = mc^2$."));
    assert!(rendered.contains("╭─ LaTeX · source"));
    assert!(rendered.contains("│ $$"));
    assert!(rendered.contains(r"\frac{1}{n} \sum_{i=1}^{n} x_i"));
    assert_eq!(rendered.matches("│ $$").count(), 2);

    let inline = lines
        .iter()
        .flat_map(|line| &line.spans)
        .find(|span| span.content.contains("$E = mc^2$"))
        .expect("inline math span");
    assert_eq!(inline.style, Palette::new(Theme::Dark).math_inline);
}

#[test]
fn renders_mermaid_as_highlighted_source_without_losing_diagram_text() {
    let markdown = "```mermaid\n%% a faithful terminal fallback\nflowchart TD\n  A[Start] --> B{Done?}\n```";
    let lines = render_lines_with_options(
        markdown,
        TerminalRenderOptions {
            width: 120,
            theme: Theme::Dark,
            line_numbers: true,
            preserve_newlines: false,
        },
    );
    let rendered = joined(&lines);

    assert!(rendered.contains("Mermaid diagram · source"));
    assert!(rendered.contains("1 │ %% a faithful terminal fallback"));
    assert!(rendered.contains("2 │ flowchart TD"));
    assert!(rendered.contains("3 │   A[Start] --> B{Done?}"));

    let palette = Palette::new(Theme::Dark);
    assert!(lines
        .iter()
        .flat_map(|line| &line.spans)
        .any(|span| span.content == "flowchart" && span.style == palette.diagram_keyword));
    assert!(lines
        .iter()
        .flat_map(|line| &line.spans)
        .any(|span| span.content == "-->" && span.style == palette.diagram_edge));
    assert!(lines
        .iter()
        .flat_map(|line| &line.spans)
        .any(|span| span.content.starts_with("%%") && span.style == palette.diagram_comment));
}

#[test]
fn ansi_output_wraps_each_span_in_its_codes() {
    let rendered = render_ansi(
        "**bold**",
        TerminalRenderOptions { width: 80, theme: Theme::Dark, line_numbers: false, preserve_newlines: false },
        true,
    );
    assert_eq!(rendered, "\u{1b}[1mbold\u{1b}[0m\n");
}

#[test]
fn quotes_rules_links_and_ordered_lists() {
    let lines = render_lines(
        "> quoted\n\n---\n\n[site](https://example.com) and [local](notes.md)\n\n3. three\n4. four",
        40,
        Theme::Dark,
    );
    let rendered = joined(&lines);
    assert!(rendered.contains("│ quoted"));
    assert!(rendered.contains(&"─".repeat(40)));
    assert!(rendered.contains("site ↗ and local"));
    assert!(rendered.contains("3. three"));
    assert!(rendered.contains("4. four"));
    assert!(!rendered.ends_with('\n'));
}

#[test]
fn code_blocks_are_framed_and_numbered() {
    let lines = render_lines_with_options(
        "```\na\nb\n```",
        TerminalRenderOptions { width: 80, theme: Theme::Light, line_numbers: true, preserve_newlines: false },
    );
    let rendered = joined(&lines);
    assert!(rendered.starts_with("╭─ code "));
    assert!(rendered.contains("│ 1 │ a"));
    assert!(rendered.contains("│ 2 │ b"));
    assert!(rendered.ends_with("╰─"));
}

#[test]
fn soft_breaks_join_or_break_lines() {
    let joined_lines = render_lines("one\ntwo", 80, Theme::Dark);
    assert_eq!(joined(&joined_lines), "one two");
    let kept = render_lines_with_options(
        "one\ntwo",
        TerminalRenderOptions { width: 80, theme: Theme::Dark, line_numbers: false, preserve_newlines: true },
    );
    assert_eq!(joined(&kept), "one\ntwo");
}

#[test]
fn tables_separate_cells_and_underline_the_head() {
    let lines = render_lines("| a | b |\n|---|---|\n| 1 | 2 |", 10, Theme::Dark);
    let rendered = joined(&lines);
    assert_eq!(rendered, format!("a │ b\n{}\n1 │ 2", "─".repeat(10)));
}

/// The text with every `ESC [ ... m` sequence taken out.
fn without_escapes(s: &str) -> String {
    let mut out = String::new();
    let mut chars = s.chars().peekable();
    while let Some(c) = chars.next() {
        if c == '\u{1b}' && chars.peek() == Some(&'[') {
            for d in chars.by_ref() {
                if d == 'm' {
                    break;
                }
            }
        } else {
            out.push(c);
        }
    }
    out
}

#[test]
fn colour_only_adds_escape_sequences() {
    let markdown = "# Title\n\nSome *em* and `code` with [a link](https://x.org).\n\n```rust\nfn main() {}\n```\n\n> quote\n";
    let options = TerminalRenderOptions { width: 60, theme: Theme::Dark, line_numbers: true, preserve_newlines: false };
    let coloured = render_ansi(markdown, options, true);
    assert!(coloured.contains('\u{1b}'));
    assert_eq!(without_escapes(&coloured), render_ansi(markdown, options, false));
}
