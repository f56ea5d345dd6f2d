use caduceus::overlay::{AstHighlight, AstOverlay, HighlightType};

fn make_highlight(file: &str, t: HighlightType) -> AstHighlight {
    AstHighlight {
        file: file.to_string(),
        start_line: 10,
        end_line: 15,
        start_col: 1,
        end_col: 20,
        highlight_type: t,
        label: "test label".to_string(),
        tooltip: "test tooltip".to_string(),
    }
}

#[test]
fn ast_overlay_add_and_filter() {
    let mut overlay = AstOverlay::new();
    overlay.add_highlight(make_highlight("src/foo.rs", HighlightType::Focus));
    overlay.add_highlight(make_highlight("src/bar.rs", HighlightType::Error));
    overlay.add_highlight(make_highlight("src/foo.rs", HighlightType::Modified));
    assert_eq!(overlay.highlights_for_file("src/foo.rs").len(), 2);
    assert_eq!(overlay.highlights_for_file("src/bar.rs").len(), 1);
    assert_eq!(overlay.highlights_for_file("src/other.rs").len(), 0);
}

#[test]
fn ast_overlay_clear_file() {
    let mut overlay = AstOverlay::new();
    overlay.add_highlight(make_highlight("src/foo.rs", HighlightType::Scope));
    overlay.add_highlight(make_highlight("src/bar.rs", HighlightType::Warning));
    overlay.clear_file("src/foo.rs");
    assert_eq!(overlay.highlights.len(), 1);
    assert_eq!(overlay.highlights[0].file, "src/bar.rs");
}

#[test]
fn ast_overlay_editor_decorations_json() {
    let mut overlay = AstOverlay::new();
    overlay.add_highlight(make_highlight("src/foo.rs", HighlightType::Error));
    let json = overlay.to_editor_decorations("src/foo.rs");
    let decs = json.get("decorations").unwrap().as_array().unwrap();
    assert_eq!(decs.len(), 1);
    assert_eq!(
        decs[0].get("options").unwrap().get_str("className"),
        Some("caduceus-error")
    );
    let range = decs[0].get("range").unwrap();
    assert_eq!(range.get("startLineNumber").unwrap().as_u64(), Some(10));
    assert_eq!(range.get("endLineNumber").unwrap().as_u64(), Some(15));
}

#[test]
fn ast_overlay_decorations_empty_for_unknown_file() {
    let overlay = AstOverlay::new();
    let json = overlay.to_editor_decorations("nonexistent.rs");
    assert_eq!(json.get("decorations").unwrap().as_array().unwrap().len(), 0);
}

#[test]
fn decorations_carry_texts() {
    let mut overlay = AstOverlay::default();
    overlay.add_highlight(make_highlight("a.rs", HighlightType::Focus));
    overlay.add_highlight(make_highlight("b.rs", HighlightType::Scope));
    overlay.clear_file("b.rs");
    let json = overlay.to_editor_decorations("a.rs");
    let decs = json.get("decorations").unwrap().as_array().unwrap();
    let options = decs[0].get("options").unwrap();
    assert_eq!(options.get("hoverMessage").unwrap().get_str("value"), Some("test tooltip"));
    assert_eq!(
        options.get("glyphMarginHoverMessage").unwrap().get_str("value"),
        Some("test label")
    );
    assert_eq!(decs[0].get("range").unwrap().get("endColumn").unwrap().as_u64(), Some(20));
}
