use oyo::multi::{DiffSettings, MultiFileDiff};
use oyo::hunks::{
    collect_conflict_steps,
    conflict_step_target, conflict_target, current_hunk_from_bounds, effective_split_bounds,
    first_available_hunk, hunk_edge_target, scroll_cursor_target, ScrollCursor, collect_conflict_markers, compute_hunk_bounds_split, compute_hunk_bounds_unified,
    compute_hunk_starts_split, compute_hunk_starts_unified, ConflictMarker, HunkBounds, HunkStart,
};
use oyo::types::{AnimationPhase, ViewMode};
use oyo::view::{LineKind, ViewLine};

fn line(
    content: &str,
    kind: LineKind,
    old_line: Option<usize>,
    new_line: Option<usize>,
    hunk: Option<usize>,
    change_id: usize,
) -> ViewLine {
    ViewLine {
        content: content.to_string(),
        spans: vec![],
        kind,
        old_line,
        new_line,
        is_active: false,
        is_active_change: false,
        is_primary_active: false,
        show_hunk_extent: false,
        change_id,
        hunk_index: hunk,
        has_changes: hunk.is_some(),
    }
}

fn at(idx: usize, change_id: usize) -> HunkStart {
    HunkStart { idx, change_id: Some(change_id) }
}

fn sample_view() -> Vec<ViewLine> {
    vec![
        line("a", LineKind::Context, Some(1), Some(1), None, 0),
        line("b", LineKind::Deleted, Some(2), None, Some(0), 1),
        line("B", LineKind::Inserted, None, Some(2), Some(0), 2),
        line("c", LineKind::Context, Some(3), Some(3), None, 3),
        line("d", LineKind::Inserted, None, Some(4), Some(1), 4),
    ]
}

#[test]
fn unified_hunk_bounds_use_view_rows() {
    let view = sample_view();
    assert_eq!(
        compute_hunk_bounds_unified(&view, ViewMode::UnifiedPane, 2),
        vec![
            Some(HunkBounds { start: at(1, 1), end: at(2, 2) }),
            Some(HunkBounds { start: at(4, 4), end: at(4, 4) }),
        ]
    );
    assert_eq!(compute_hunk_starts_unified(&view, ViewMode::UnifiedPane, 3), vec![Some(at(1, 1)), Some(at(4, 4)), None]);
}

#[test]
fn evolution_rows_skip_deleted_lines() {
    let view = sample_view();
    assert_eq!(
        compute_hunk_bounds_unified(&view, ViewMode::Evolution, 2),
        vec![
            Some(HunkBounds { start: at(1, 2), end: at(1, 2) }),
            Some(HunkBounds { start: at(3, 4), end: at(3, 4) }),
        ]
    );
}

#[test]
fn split_panes_count_their_own_rows() {
    let view = sample_view();
    let (old, new) = compute_hunk_starts_split(&view, 2);
    assert_eq!(old, vec![Some(at(1, 1)), None]);
    assert_eq!(new, vec![Some(at(1, 2)), Some(at(3, 4))]);
    let (old_b, new_b) = compute_hunk_bounds_split(&view, 2);
    assert_eq!(old_b, vec![Some(HunkBounds { start: at(1, 1), end: at(1, 1) }), None]);
    assert_eq!(new_b[1], Some(HunkBounds { start: at(3, 4), end: at(3, 4) }));
    assert_eq!(compute_hunk_starts_split(&view, 0), (vec![], vec![]));
}

#[test]
fn conflict_markers_by_view_mode() {
    let view = vec![
        line("x", LineKind::Context, Some(1), Some(1), None, 0),
        line("<<<<<<< ours", LineKind::Deleted, Some(2), None, Some(0), 1),
        line("=======", LineKind::Inserted, None, Some(2), Some(0), 2),
        line(">>>>>>> theirs", LineKind::Context, Some(3), Some(3), None, 3),
    ];
    assert_eq!(
        collect_conflict_markers(&view, ViewMode::UnifiedPane, AnimationPhase::Idle),
        vec![
            ConflictMarker { display_idx: 1, change_id: 1 },
            ConflictMarker { display_idx: 2, change_id: 2 },
            ConflictMarker { display_idx: 3, change_id: 3 },
        ]
    );
    assert_eq!(
        collect_conflict_markers(&view, ViewMode::Evolution, AnimationPhase::Idle),
        vec![
            ConflictMarker { display_idx: 1, change_id: 2 },
            ConflictMarker { display_idx: 2, change_id: 3 },
        ]
    );
    assert_eq!(
        collect_conflict_markers(&view, ViewMode::Split, AnimationPhase::Idle),
        vec![
            ConflictMarker { display_idx: 0, change_id: 1 },
            ConflictMarker { display_idx: 1, change_id: 2 },
            ConflictMarker { display_idx: 2, change_id: 3 },
        ]
    );
}

use oyo::config::HunkWrapMode;
use oyo::hunks::{
    effective_split_starts, first_hunk_from_starts, hunk_scroll_step, last_hunk_from_starts,
    next_hunk_from_index, next_hunk_from_starts, pick_split_start, prev_hunk_from_index,
    prev_hunk_from_starts, unified_hunk_fallback, HunkScrollStep,
};

fn starts() -> Vec<Option<HunkStart>> {
    vec![Some(at(2, 10)), None, Some(at(8, 12)), Some(at(15, 13))]
}

#[test]
fn next_and_previous_hunks_from_scroll_offset() {
    let s = starts();
    assert_eq!(next_hunk_from_starts(&s, 8, false), Some((2, at(8, 12))));
    assert_eq!(next_hunk_from_starts(&s, 8, true), Some((3, at(15, 13))));
    assert_eq!(next_hunk_from_starts(&s, 0, false), Some((0, at(2, 10))));
    assert_eq!(next_hunk_from_starts(&s, 99, false), None);
    assert_eq!(prev_hunk_from_starts(&s, 8), Some((0, at(2, 10))));
    assert_eq!(prev_hunk_from_starts(&s, 2), None);
}

#[test]
fn next_and_previous_hunks_from_cursor() {
    let s = starts();
    assert_eq!(next_hunk_from_index(&s, 0), Some((2, at(8, 12))));
    assert_eq!(next_hunk_from_index(&s, 3), None);
    assert_eq!(prev_hunk_from_index(&s, 3), Some((2, at(8, 12))));
    assert_eq!(prev_hunk_from_index(&s, 0), None);
    assert_eq!(prev_hunk_from_index(&s, 10), Some((2, at(8, 12))));
    assert_eq!(prev_hunk_from_index(&[], 1), None);
    assert_eq!(first_hunk_from_starts(&s), Some((0, at(2, 10))));
    assert_eq!(last_hunk_from_starts(&s), Some((3, at(15, 13))));
}

#[test]
fn single_hunk_fallback() {
    assert_eq!(unified_hunk_fallback(&starts()), None);
    assert_eq!(unified_hunk_fallback(&[None, Some(at(4, 1))]), Some((1, at(4, 1))));
    assert_eq!(unified_hunk_fallback(&[None, None]), None);
}

#[test]
fn hunk_scroll_wraps_as_configured() {
    let s = starts();
    assert_eq!(
        hunk_scroll_step(&s, true, false, 0, false, 20, HunkWrapMode::Hunk),
        HunkScrollStep::Jump { hunk: 0, start: at(2, 10) }
    );
    assert_eq!(hunk_scroll_step(&s, true, false, 0, false, 20, HunkWrapMode::File), HunkScrollStep::WrapFile);
    assert_eq!(hunk_scroll_step(&s, true, false, 0, false, 20, HunkWrapMode::NoWrap), HunkScrollStep::Edge);
    assert_eq!(
        hunk_scroll_step(&s, false, true, 3, true, 0, HunkWrapMode::NoWrap),
        HunkScrollStep::Jump { hunk: 2, start: at(8, 12) }
    );
    assert_eq!(
        hunk_scroll_step(&s, false, false, 0, false, 0, HunkWrapMode::Hunk),
        HunkScrollStep::Jump { hunk: 3, start: at(15, 13) }
    );
}

#[test]
fn split_starts_pick_the_nearer_pane() {
    assert_eq!(pick_split_start(Some(at(3, 1)), Some(at(9, 2)), 4), Some(at(3, 1)));
    assert_eq!(
        effective_split_starts(&[Some(at(3, 1)), None], &[Some(at(5, 2)), Some(at(7, 3))], 5),
        vec![Some(at(5, 2)), Some(at(7, 3))]
    );
}

fn bounds(start: usize, end: usize, change_id: usize) -> HunkBounds {
    HunkBounds { start: at(start, change_id), end: at(end, change_id + 1) }
}

#[test]
fn current_hunk_is_last_starting_at_or_above_scroll() {
    let b = vec![Some(bounds(2, 4, 1)), None, Some(bounds(8, 9, 5)), Some(bounds(12, 15, 7))];
    assert_eq!(current_hunk_from_bounds(&b, 0), None);
    assert_eq!(current_hunk_from_bounds(&b, 2), Some(0));
    assert_eq!(current_hunk_from_bounds(&b, 9), Some(2));
    assert_eq!(current_hunk_from_bounds(&b, 100), Some(3));
}

#[test]
fn first_available_hunk_skips_hunks_without_rows() {
    let b = vec![None, None, Some(bounds(8, 9, 5))];
    assert_eq!(first_available_hunk(&b), Some((2, bounds(8, 9, 5))));
    assert_eq!(first_available_hunk(&[None, None]), None);
}

#[test]
fn hunk_edge_target_prefers_cursor_hunk_then_scroll_then_first() {
    let b = vec![None, Some(bounds(3, 5, 1)), Some(bounds(9, 12, 4))];
    // Moving by hunks: the cursor's hunk.
    assert_eq!(hunk_edge_target(&b, true, 2, 0), Some((2, bounds(9, 12, 4))));
    // The cursor's hunk has no rows: the first hunk that has rows.
    assert_eq!(hunk_edge_target(&b, true, 0, 10), Some((1, bounds(3, 5, 1))));
    // Scrolling: the hunk at the scroll position.
    assert_eq!(hunk_edge_target(&b, false, 0, 10), Some((2, bounds(9, 12, 4))));
    // Above every hunk: the first hunk that has rows.
    assert_eq!(hunk_edge_target(&b, false, 0, 0), Some((1, bounds(3, 5, 1))));
    assert_eq!(hunk_edge_target(&[None], false, 0, 0), None);
}

#[test]
fn effective_split_bounds_picks_nearer_pane() {
    let old = vec![Some(bounds(2, 3, 1)), Some(bounds(20, 21, 3)), None];
    let new = vec![Some(bounds(6, 7, 2)), None, Some(bounds(30, 31, 5)), Some(bounds(40, 41, 6))];
    let r = effective_split_bounds(&old, &new, 5);
    assert_eq!(r, vec![Some(bounds(6, 7, 2)), Some(bounds(20, 21, 3)), Some(bounds(30, 31, 5))]);
    let r = effective_split_bounds(&old, &new, 0);
    assert_eq!(r[0], Some(bounds(2, 3, 1)));
}

fn marker(display_idx: usize, change_id: usize) -> ConflictMarker {
    ConflictMarker { display_idx, change_id }
}

#[test]
fn conflict_target_moves_to_next_and_wraps() {
    let ms = vec![marker(10, 1), marker(3, 2), marker(10, 3), marker(20, 4)];
    assert_eq!(conflict_target(&ms, 3, true), marker(10, 1));
    assert_eq!(conflict_target(&ms, 10, true), marker(20, 4));
    assert_eq!(conflict_target(&ms, 20, true), marker(3, 2));
    assert_eq!(conflict_target(&ms, 0, true), marker(3, 2));
}

#[test]
fn conflict_target_moves_to_previous_and_wraps() {
    let ms = vec![marker(10, 1), marker(3, 2), marker(10, 3), marker(20, 4)];
    assert_eq!(conflict_target(&ms, 20, false), marker(10, 3));
    assert_eq!(conflict_target(&ms, 10, false), marker(3, 2));
    assert_eq!(conflict_target(&ms, 3, false), marker(20, 4));
}

#[test]
fn conflict_step_target_moves_and_wraps() {
    let steps = vec![7, 2, 12];
    assert_eq!(conflict_step_target(&steps, 2, true), 7);
    assert_eq!(conflict_step_target(&steps, 12, true), 2);
    assert_eq!(conflict_step_target(&steps, 7, false), 2);
    assert_eq!(conflict_step_target(&steps, 2, false), 12);
    assert_eq!(conflict_step_target(&steps, 0, false), 12);
}

#[test]
fn scroll_cursor_follows_visible_rows() {
    let view = vec![
        line("a", LineKind::Context, Some(1), Some(1), None, 0),
        line("b", LineKind::Deleted, Some(2), None, Some(0), 1),
        line("B", LineKind::Inserted, None, Some(2), Some(0), 2),
        line("c", LineKind::Context, Some(3), Some(3), None, 3),
    ];
    assert_eq!(scroll_cursor_target(&view, ViewMode::UnifiedPane, 0), ScrollCursor::Change(0));
    assert_eq!(
        scroll_cursor_target(&view, ViewMode::UnifiedPane, 1),
        ScrollCursor::Hunk { hunk: 0, change_id: 1 }
    );
    // The evolution view gives deleted lines no row.
    assert_eq!(
        scroll_cursor_target(&view, ViewMode::Evolution, 1),
        ScrollCursor::Hunk { hunk: 0, change_id: 2 }
    );
    assert_eq!(scroll_cursor_target(&view, ViewMode::Evolution, 2), ScrollCursor::Change(3));
    assert_eq!(scroll_cursor_target(&view, ViewMode::Evolution, 3), ScrollCursor::Clear);
}

#[test]
fn test_conflict_navigation_steps_between_markers() {
    let old = "line1\nline2\nline3\n".to_string();
    let new = "line1\n<<<<<<< ours\nfoo\n=======\nbar\n>>>>>>> theirs\nline3\n".to_string();
    let mut multi_diff =
        MultiFileDiff::from_file_pair("a.txt".to_string(), "a.txt".to_string(), old, new, DiffSettings::default());
    let steps = collect_conflict_steps(multi_diff.current_navigator());
    assert!(steps.len() >= 3, "Expected at least 3 conflict marker steps");

    // Starting at the first step, the next conflict is the first marker step.
    let mut current_step = 0;
    current_step = conflict_step_target(&steps, current_step, true);
    assert_eq!(current_step, steps[0]);

    current_step = conflict_step_target(&steps, current_step, true);
    assert_eq!(current_step, steps[1]);

    current_step = conflict_step_target(&steps, current_step, false);
    assert_eq!(current_step, steps[0]);
}

#[test]
fn next_then_prev_hunk_returns() {
    let starts = vec![Some(at(1, 1)), None, Some(at(6, 4)), None, Some(at(9, 7))];
    let (n, _) = next_hunk_from_index(&starts, 0).unwrap();
    assert_eq!(n, 2);
    assert_eq!(prev_hunk_from_index(&starts, n).map(|(h, _)| h), Some(0));
    let (n, _) = next_hunk_from_index(&starts, 2).unwrap();
    assert_eq!(n, 4);
    assert_eq!(prev_hunk_from_index(&starts, n).map(|(h, _)| h), Some(2));
}
