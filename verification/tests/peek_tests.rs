use oyo::config::ModifiedStepMode;
use oyo::diff::DiffNavigator;
use oyo::peek::{
    base_modified_view_mode, cycle_peek_change, is_peek_override_for_line, modified_only_text_for_line,
    peek_mode_for_line, peek_text_for_line, text_for_yank, toggle_peek_hunk, PeekMode, PeekScope, PeekState,
};
use oyo::view::{Change, ChangeKind, ChangeSpan, DiffResult, LineKind, ViewLine};

fn line(kind: LineKind, change_id: usize, hunk: Option<usize>, primary: bool, content: &str) -> ViewLine {
    ViewLine {
        content: content.to_string(),
        spans: vec![],
        kind,
        old_line: Some(1),
        new_line: Some(1),
        is_active: primary,
        is_active_change: primary,
        is_primary_active: primary,
        show_hunk_extent: false,
        change_id,
        hunk_index: hunk,
        has_changes: true,
    }
}

fn nav() -> DiffNavigator {
    let replace = Change {
        id: 0,
        spans: vec![
            ChangeSpan { kind: ChangeKind::Equal, text: "let x = ".to_string(), new_text: None, old_line: Some(1), new_line: Some(1) },
            ChangeSpan {
                kind: ChangeKind::Replace,
                text: "1".to_string(),
                new_text: Some("2".to_string()),
                old_line: Some(1),
                new_line: Some(1),
            },
        ],
    };
    let diff = DiffResult { changes: vec![replace], significant_changes: vec![0], hunks: vec![], insertions: 1, deletions: 1 };
    DiffNavigator::new(diff, String::new(), String::new(), false)
}

fn change_peek(mode: PeekMode) -> Option<PeekState> {
    Some(PeekState { scope: PeekScope::Change, mode })
}

#[test]
fn change_peek_cycles_through_three_states() {
    let m = ModifiedStepMode::Mixed;
    assert_eq!(base_modified_view_mode(m), PeekMode::Mixed);
    let a = cycle_peek_change(true, None, m);
    assert_eq!(a, change_peek(PeekMode::Modified));
    let b = cycle_peek_change(true, a, m);
    assert_eq!(b, change_peek(PeekMode::Old));
    assert_eq!(cycle_peek_change(true, b, m), None);
    // With the modified mode configured the cycle starts at the old text.
    assert_eq!(cycle_peek_change(true, None, ModifiedStepMode::Modified), change_peek(PeekMode::Old));
    // Not stepping: nothing changes.
    assert_eq!(cycle_peek_change(false, b, m), b);
}

#[test]
fn hunk_peek_toggles() {
    let on = Some(PeekState { scope: PeekScope::Hunk, mode: PeekMode::Old });
    assert_eq!(toggle_peek_hunk(true, None), on);
    assert_eq!(toggle_peek_hunk(true, on), None);
    assert_eq!(toggle_peek_hunk(true, change_peek(PeekMode::Old)), on);
    assert_eq!(toggle_peek_hunk(false, None), None);
}

#[test]
fn peek_applies_to_covered_lines() {
    let primary = line(LineKind::Modified, 0, Some(2), true, "let x = 2");
    let other = line(LineKind::Context, 0, Some(3), false, "ctx");
    let hunk = Some(PeekState { scope: PeekScope::Hunk, mode: PeekMode::Old });
    assert!(is_peek_override_for_line(true, change_peek(PeekMode::Old), &primary, 2));
    assert!(!is_peek_override_for_line(true, change_peek(PeekMode::Old), &other, 2));
    assert!(is_peek_override_for_line(true, hunk, &other, 3));
    assert!(!is_peek_override_for_line(false, hunk, &other, 3));
    let m = ModifiedStepMode::Modified;
    assert_eq!(peek_mode_for_line(true, hunk, &other, 3, m), Some(PeekMode::Old));
    assert_eq!(peek_mode_for_line(true, hunk, &other, 2, m), None);
    assert_eq!(peek_mode_for_line(true, None, &primary, 0, m), Some(PeekMode::Modified));
    assert_eq!(peek_mode_for_line(true, None, &other, 0, m), None);
    assert_eq!(peek_mode_for_line(false, None, &primary, 0, m), None);
}

#[test]
fn yank_copies_the_peeked_text() {
    let n = nav();
    let primary = line(LineKind::Modified, 0, Some(0), true, "shown");
    assert_eq!(peek_text_for_line(&n, &primary), Some("let x = 1".to_string()));
    assert_eq!(modified_only_text_for_line(&n, &primary), Some("let x = 2".to_string()));
    let m = ModifiedStepMode::Mixed;
    assert_eq!(text_for_yank(&n, true, change_peek(PeekMode::Old), &primary, 0, m), "let x = 1");
    assert_eq!(text_for_yank(&n, true, change_peek(PeekMode::Modified), &primary, 0, m), "let x = 2");
    assert_eq!(text_for_yank(&n, true, None, &primary, 0, m), "let x = 12");
    assert_eq!(text_for_yank(&n, false, None, &primary, 0, m), "shown");
    let ctx = line(LineKind::Context, 0, None, false, "context");
    assert_eq!(peek_text_for_line(&n, &ctx), None);
    assert_eq!(text_for_yank(&n, true, None, &ctx, 0, m), "context");
    let missing = line(LineKind::Modified, 5, None, true, "gone");
    assert_eq!(text_for_yank(&n, true, change_peek(PeekMode::Old), &missing, 0, m), "gone");
}
