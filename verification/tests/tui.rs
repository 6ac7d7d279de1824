use glow::discover::DocumentIndex;
use glow::document::{Document, Timestamp};
use glow::render::style::Line;
use glow::tui::{
    centered_rect, visible_panes, App, Focus, KeyCode, KeyPress, LoopControl, NodeKey, PreviewRequest, Rect, TuiOptions,
};

fn text(line: &Line) -> String {
    line.spans.iter().map(|span| span.content.as_str()).collect()
}

fn document(relative: &str, contents: &str) -> Document {
    Document::from_contents(
        format!("/docs/{relative}"),
        relative.to_string(),
        contents,
        Timestamp { secs: 0, nanos: 0 },
        contents.len() as u64,
    )
}

fn fixture() -> App {
    let index = DocumentIndex::from_documents(
        "/docs".to_string(),
        vec![
            document("README.md", "# Home"),
            document("guide/intro.md", "# Introduction"),
            document("guide/deep/api.md", "# API Reference"),
        ],
    );
    App::new(index, TuiOptions::default())
}

fn is_folder(key: &NodeKey, path: &str) -> bool {
    matches!(key, NodeKey::Folder(p) if p == path)
}

fn is_document(key: &NodeKey, path: &str) -> bool {
    matches!(key, NodeKey::Document(p) if p == path)
}

fn press(code: KeyCode) -> KeyPress {
    KeyPress { code, control: false, alt: false }
}

#[test]
fn tree_is_recursive_and_folders_start_expanded() {
    let app = fixture();
    assert!(app.rows.iter().any(|row| is_folder(&row.key, "guide")));
    assert!(app.rows.iter().any(|row| is_folder(&row.key, "guide/deep")));
    assert!(app.rows.iter().any(|row| is_document(&row.key, "guide/deep/api.md")));
    assert!(app.collapsed.is_empty());
}

#[test]
fn collapsing_a_folder_hides_descendants_and_keeps_folder_selected() {
    let mut app = fixture();
    app.selected = app
        .rows
        .iter()
        .position(|row| is_folder(&row.key, "guide"))
        .expect("guide row");

    assert!(app.toggle_selected_folder());
    assert!(is_folder(app.selected_key().expect("selection"), "guide"));
    assert!(!app.rows.iter().any(|row| is_document(&row.key, "guide/deep/api.md")));
}

#[test]
fn filter_matches_titles_and_retains_ancestors() {
    let mut app = fixture();
    app.filter = "api reference".to_string();
    app.rebuild_rows(None);

    assert_eq!(app.rows.len(), 3);
    assert!(is_folder(&app.rows[0].key, "guide"));
    assert!(is_folder(&app.rows[1].key, "guide/deep"));
    assert!(is_document(&app.rows[2].key, "guide/deep/api.md"));
}

#[test]
fn navigation_is_clamped_and_tab_changes_focus() {
    let mut app = fixture();
    app.select_first();
    app.move_selection(-20);
    assert_eq!(app.selected, 0);
    app.move_selection(200);
    assert_eq!(app.selected, app.rows.len() - 1);

    assert_eq!(app.focus, Focus::Tree);
    app.handle_key(press(KeyCode::Tab));
    assert_eq!(app.focus, Focus::Preview);
}

#[test]
fn filter_input_consumes_q_instead_of_quitting() {
    let mut app = fixture();
    app.filter_editing = true;
    let result = app.handle_key(press(KeyCode::Char('q')));
    assert_eq!(result, LoopControl::Continue);
    assert_eq!(app.filter, "q");
}

#[test]
fn q_quits_outside_the_filter_and_escape_stops_editing() {
    let mut app = fixture();
    assert_eq!(app.handle_key(press(KeyCode::Char('q'))), LoopControl::Quit);
    app.filter_editing = true;
    app.handle_key(press(KeyCode::Esc));
    assert!(!app.filter_editing);
}

#[test]
fn folders_come_before_documents_and_fold() {
    let mut app = fixture();
    assert!(is_folder(&app.rows[0].key, "guide"));
    assert!(is_document(&app.rows[app.rows.len() - 1].key, "README.md"));
    let before = app.rows.len();
    app.selected = app
        .rows
        .iter()
        .position(|row| is_folder(&row.key, "guide/deep"))
        .expect("deep row");
    assert!(app.toggle_selected_folder());
    assert_eq!(app.rows.len(), before - 1);
    assert!(app.toggle_selected_folder());
    assert_eq!(app.rows.len(), before);
}

#[test]
fn folded_folders_hide_their_contents_until_unfolded() {
    let mut app = fixture();
    app.selected = app
        .rows
        .iter()
        .position(|row| is_folder(&row.key, "guide"))
        .expect("guide row");
    assert!(app.toggle_selected_folder());
    assert!(!app.rows.iter().any(|row| matches!(&row.key, NodeKey::Folder(p) | NodeKey::Document(p) if p.starts_with("guide/"))));
    assert!(app.toggle_selected_folder());
    assert!(app.rows.iter().any(|row| is_document(&row.key, "guide/intro.md")));
}

#[test]
fn header_footer_and_help_text() {
    let mut app = fixture();
    assert_eq!(text(&app.header_line()), " glow   docs  •  recursive Markdown browser");
    let footer = app.footer_lines();
    assert_eq!(footer.len(), 2);
    assert!(text(&footer[0]).contains("3 files  •  focus: files"));
    assert!(text(&footer[1]).ends_with("q quit"));
    app.filter = "api".to_string();
    app.filter_editing = true;
    app.rebuild_rows(None);
    let footer = app.footer_lines();
    assert!(text(&footer[0]).contains("1/3 files"));
    assert_eq!(text(&footer[1]), " / api█  Enter accept  Esc close");
    let help = glow::tui::help_lines();
    assert_eq!(help.len(), 13);
    assert_eq!(text(&help[0]), "Navigation");
}

#[test]
fn pasting_into_the_filter_drops_line_breaks() {
    let mut app = fixture();
    app.paste("ignored");
    assert_eq!(app.filter, "");
    app.filter_editing = true;
    app.paste("api\r\nref");
    assert_eq!(app.filter, "apiref");
}

#[test]
fn help_window_is_centred_and_clamped() {
    let area = Rect { x: 0, y: 0, width: 100, height: 40 };
    assert_eq!(centered_rect(66, 20, area), Rect { x: 17, y: 10, width: 66, height: 20 });
    let small = Rect { x: 2, y: 1, width: 20, height: 5 };
    assert_eq!(centered_rect(66, 20, small), Rect { x: 2, y: 1, width: 20, height: 5 });
    assert_eq!(visible_panes(120, Focus::Tree), (true, true));
    assert_eq!(visible_panes(60, Focus::Preview), (false, true));
}

#[test]
fn a_loaded_preview_settles() {
    let mut app = fixture();
    assert!(matches!(app.preview_request(), PreviewRequest::Load(p) if p == "/docs/README.md"));
    app.load_preview(Ok("# Home\n\nSome text.".to_string()));
    app.refresh_preview(40);
    assert!(matches!(app.preview_request(), PreviewRequest::Ready));
    let lines: Vec<String> = app.preview.as_ref().unwrap().lines.iter().map(text).collect();
    let scroll = app.preview_scroll;
    app.refresh_preview(40);
    let again: Vec<String> = app.preview.as_ref().unwrap().lines.iter().map(text).collect();
    assert_eq!(again, lines);
    assert_eq!(app.preview_scroll, scroll);
    assert!(matches!(app.preview_request(), PreviewRequest::Ready));
}
