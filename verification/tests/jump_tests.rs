use oyo::hunks::{HunkBounds, HunkStart};
use oyo::jump::{goto_line_target, goto_scroll_offset, pick_split_bounds, pick_split_index};
use oyo::types::ViewMode;
use oyo::view::{LineKind, ViewLine};

fn line(kind: LineKind, old_line: Option<usize>, new_line: Option<usize>) -> ViewLine {
    ViewLine {
        content: String::new(),
        spans: vec![],
        kind,
        old_line,
        new_line,
        is_active: false,
        is_active_change: false,
        is_primary_active: false,
        show_hunk_extent: false,
        change_id: 0,
        hunk_index: None,
        has_changes: false,
    }
}

fn view() -> Vec<ViewLine> {
    vec![
        line(LineKind::Context, Some(1), Some(1)),
        line(LineKind::Deleted, Some(2), None),
        line(LineKind::Inserted, None, Some(2)),
        line(LineKind::Inserted, None, Some(3)),
        line(LineKind::Context, Some(3), Some(4)),
    ]
}

#[test]
fn unified_jump_uses_old_numbers_first() {
    let v = view();
    assert_eq!(goto_line_target(&v, ViewMode::UnifiedPane, 2, 0), Some(1));
    assert_eq!(goto_line_target(&v, ViewMode::UnifiedPane, 4, 0), Some(4));
    let gap = vec![line(LineKind::Context, Some(1), Some(1)), line(LineKind::Context, Some(3), Some(3))];
    assert_eq!(goto_line_target(&gap, ViewMode::UnifiedPane, 2, 0), None);
    assert_eq!(goto_line_target(&v, ViewMode::UnifiedPane, 99, 0), Some(4));
    assert_eq!(goto_line_target(&v, ViewMode::UnifiedPane, 0, 0), Some(0));
    assert_eq!(goto_line_target(&[], ViewMode::UnifiedPane, 3, 0), None);
}

#[test]
fn evolution_jump_skips_deleted_rows() {
    let v = view();
    assert_eq!(goto_line_target(&v, ViewMode::Evolution, 2, 0), Some(1));
    assert_eq!(goto_line_target(&v, ViewMode::Evolution, 4, 0), Some(3));
    assert_eq!(goto_line_target(&v, ViewMode::Evolution, 50, 0), Some(3));
}

#[test]
fn split_jump_picks_the_pane_nearer_the_scroll() {
    let v = view();
    // old 2 is old-pane row 1, new 2 is new-pane row 1.
    assert_eq!(goto_line_target(&v, ViewMode::Split, 2, 0), Some(1));
    // new 4 only exists in the new pane (row 3).
    assert_eq!(goto_line_target(&v, ViewMode::Split, 4, 0), Some(3));
    // past the end: the new side has the larger numbers.
    assert_eq!(goto_line_target(&v, ViewMode::Split, 9, 0), Some(3));
}

#[test]
fn split_picks() {
    assert_eq!(pick_split_index(Some(3), Some(10), 4), Some(3));
    assert_eq!(pick_split_index(Some(3), Some(5), 4), Some(5));
    assert_eq!(pick_split_index(None, Some(5), 4), Some(5));
    assert_eq!(pick_split_index(None, None, 4), None);
    let b = |i| HunkBounds { start: HunkStart { idx: i, change_id: None }, end: HunkStart { idx: i, change_id: None } };
    assert_eq!(pick_split_bounds(Some(b(9)), Some(b(2)), 1), Some(b(2)));
}

#[test]
fn scroll_offsets() {
    assert_eq!(goto_scroll_offset(10, 6, true), 7);
    assert_eq!(goto_scroll_offset(2, 10, true), 0);
    assert_eq!(goto_scroll_offset(10, 0, true), 10);
    assert_eq!(goto_scroll_offset(10, 6, false), 10);
}
