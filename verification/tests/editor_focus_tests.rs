use oyo::editor_focus::{
    active_editor_focus, current_editor_focus, editor_focus_for_line, primary_editor_focus, visible_editor_focus,
    visible_split_editor_focus, EditorFocus, EditorSide,
};
use oyo::types::ViewMode;
use oyo::view::{LineKind, ViewLine};

fn line(kind: LineKind, old_line: Option<usize>, new_line: Option<usize>, active: bool, primary: bool) -> ViewLine {
    ViewLine {
        content: String::new(),
        spans: vec![],
        kind,
        old_line,
        new_line,
        is_active: active,
        is_active_change: active,
        is_primary_active: primary,
        show_hunk_extent: false,
        change_id: 0,
        hunk_index: None,
        has_changes: false,
    }
}

fn new(n: usize) -> Option<EditorFocus> {
    Some(EditorFocus { side: EditorSide::New, line: n })
}

fn old_side(n: usize) -> Option<EditorFocus> {
    Some(EditorFocus { side: EditorSide::Old, line: n })
}

fn view() -> Vec<ViewLine> {
    vec![
        line(LineKind::Context, Some(1), Some(1), false, false),
        line(LineKind::Deleted, Some(2), None, true, false),
        line(LineKind::Inserted, None, Some(2), false, true),
        line(LineKind::Context, Some(3), Some(3), false, false),
    ]
}

#[test]
fn focus_prefers_new_line_numbers() {
    assert_eq!(editor_focus_for_line(&line(LineKind::Context, Some(4), Some(5), false, false)), new(5));
    assert_eq!(editor_focus_for_line(&line(LineKind::Deleted, Some(4), None, false, false)), old_side(4));
    assert_eq!(editor_focus_for_line(&line(LineKind::Context, Some(0), Some(0), false, false)), None);
}

#[test]
fn flagged_lines_give_focus() {
    let v = view();
    assert_eq!(primary_editor_focus(&v), new(2));
    assert_eq!(active_editor_focus(&v), old_side(2));
    assert_eq!(primary_editor_focus(&v[..2]), None);
}

#[test]
fn scroll_position_gives_focus() {
    let v = view();
    assert_eq!(visible_editor_focus(&v, ViewMode::UnifiedPane, false, 1), old_side(2));
    // The evolution view skips the deleted line's row.
    assert_eq!(visible_editor_focus(&v, ViewMode::Evolution, false, 1), new(2));
    assert_eq!(visible_editor_focus(&v, ViewMode::UnifiedPane, false, 9), None);
    // Split view: new pane rows are 1, 2, 3; old pane rows are 1, 2, 3.
    assert_eq!(visible_split_editor_focus(&v, false, 1), new(2));
    assert_eq!(visible_split_editor_focus(&v, false, 2), new(3));
    let only_old = vec![line(LineKind::Deleted, Some(7), None, false, false)];
    assert_eq!(visible_split_editor_focus(&only_old, false, 0), old_side(7));
}

#[test]
fn editor_focus_order_depends_on_mode() {
    let v = view();
    assert_eq!(current_editor_focus(&v, true, false, ViewMode::UnifiedPane, false, 0), new(2));
    assert_eq!(current_editor_focus(&v, false, true, ViewMode::UnifiedPane, false, 0), new(2));
    assert_eq!(current_editor_focus(&v, false, false, ViewMode::UnifiedPane, false, 0), new(1));
    assert_eq!(current_editor_focus(&v, false, false, ViewMode::UnifiedPane, false, 9), new(2));
}
