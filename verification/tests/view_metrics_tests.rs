use oyo::config::FoldContextMode;
use oyo::types::{AnimationPhase, StepDirection, ViewMode};
use oyo::view::{Change, ChangeKind, ChangeSpan, LineKind, ViewLine};
use oyo::view_metrics::{
    allow_overscroll_state, change_has_conflict_marker, display_metrics, evolution_display_metrics,
    fold_context_view, inline_text_for_change, is_conflict_marker, is_fold_line, max_scroll,
    modified_only_text_for_change, old_text_for_change, point_in_rect, split_display_metrics,
};

#[test]
fn test_allow_overscroll_state() {
    // Feature disabled: overscroll is never allowed.
    assert!(!allow_overscroll_state(false, false, false, false));
    assert!(!allow_overscroll_state(false, true, true, false));
    assert!(!allow_overscroll_state(false, false, false, true));

    // Feature enabled: preserve existing auto-center/manual-center behavior.
    assert!(!allow_overscroll_state(true, false, false, false));
    assert!(allow_overscroll_state(true, false, false, true));
    assert!(!allow_overscroll_state(true, false, true, false));
    assert!(!allow_overscroll_state(true, true, false, false));
    assert!(allow_overscroll_state(true, true, true, false));
    assert!(allow_overscroll_state(true, true, true, true));
    assert!(allow_overscroll_state(true, true, false, true));
}

#[test]
fn test_max_scroll_normal() {
    assert_eq!(max_scroll(100, 20, false), 80);
    assert_eq!(max_scroll(50, 10, false), 40);
    assert_eq!(max_scroll(20, 20, false), 0);
    assert_eq!(max_scroll(5, 20, false), 0);
}

#[test]
fn test_max_scroll_overscroll() {
    assert_eq!(max_scroll(100, 20, true), 89);
    assert_eq!(max_scroll(50, 10, true), 44);
    assert_eq!(max_scroll(5, 20, true), 0);
    assert_eq!(max_scroll(1, 20, true), 0);
}

fn make_view_line(
    kind: LineKind,
    old_line: Option<usize>,
    new_line: Option<usize>,
    is_active: bool,
    is_primary_active: bool,
) -> ViewLine {
    ViewLine {
        content: String::new(),
        spans: vec![],
        kind,
        old_line,
        new_line,
        is_active,
        is_active_change: is_active,
        is_primary_active,
        show_hunk_extent: false,
        change_id: 0,
        hunk_index: None,
        has_changes: kind != LineKind::Context,
    }
}

#[test]
fn test_evolution_metrics_skips_deleted() {
    let view = vec![
        make_view_line(LineKind::Context, Some(1), Some(1), false, false),
        make_view_line(LineKind::Deleted, Some(2), None, false, false),
        make_view_line(LineKind::Deleted, Some(3), None, false, false),
        make_view_line(LineKind::Context, Some(4), Some(2), true, true),
    ];
    let (len, idx) = evolution_display_metrics(&view, AnimationPhase::Idle);
    assert_eq!(len, 2);
    assert_eq!(idx, Some(1));
}

#[test]
fn test_evolution_metrics_pending_delete_visibility() {
    let view = vec![
        make_view_line(LineKind::Context, Some(1), Some(1), false, false),
        make_view_line(LineKind::PendingDelete, Some(2), None, true, true),
        make_view_line(LineKind::Context, Some(3), Some(2), false, false),
    ];

    let (len, idx) = evolution_display_metrics(&view, AnimationPhase::Idle);
    assert_eq!(len, 2);
    assert_eq!(idx, None);

    let (len, idx) = evolution_display_metrics(&view, AnimationPhase::FadeOut);
    assert_eq!(len, 3);
    assert_eq!(idx, Some(1));

    let (len, idx) = evolution_display_metrics(&view, AnimationPhase::FadeIn);
    assert_eq!(len, 3);
    assert_eq!(idx, Some(1));
}

#[test]
fn test_split_metrics_primary_dominates() {
    let view = vec![
        make_view_line(LineKind::Context, Some(1), Some(1), true, false),
        make_view_line(LineKind::Context, Some(2), Some(2), false, false),
        make_view_line(LineKind::Inserted, None, Some(3), true, true),
    ];
    let (len, idx) = split_display_metrics(&view, 0, StepDirection::Forward, false);
    assert_eq!(len, 3);
    assert_eq!(idx, Some(2));
}

#[test]
fn test_split_metrics_minimize_jump() {
    let view = vec![
        make_view_line(LineKind::Context, Some(1), Some(1), false, false),
        make_view_line(LineKind::Context, Some(2), Some(2), false, false),
        make_view_line(LineKind::Modified, Some(3), Some(3), true, true),
        make_view_line(LineKind::Context, Some(4), Some(4), false, false),
    ];
    let (_, idx) = split_display_metrics(&view, 0, StepDirection::Forward, false);
    assert_eq!(idx, Some(2));

    let (_, idx) = split_display_metrics(&view, 0, StepDirection::Backward, false);
    assert_eq!(idx, Some(2));

    let (_, idx) = split_display_metrics(&view, 10, StepDirection::Forward, false);
    assert_eq!(idx, Some(2));
}

#[test]
fn test_split_metrics_fallback_when_no_primary() {
    let view = vec![
        make_view_line(LineKind::Context, Some(1), Some(1), false, false),
        make_view_line(LineKind::Context, Some(2), Some(2), true, false),
        make_view_line(LineKind::Context, Some(3), Some(3), false, false),
    ];
    let (len, idx) = split_display_metrics(&view, 0, StepDirection::Forward, false);
    assert_eq!(len, 3);
    assert_eq!(idx, Some(1));
}

#[test]
fn unified_metrics_count_every_line() {
    let view = vec![
        make_view_line(LineKind::Context, Some(1), Some(1), false, false),
        make_view_line(LineKind::Deleted, Some(2), None, true, false),
        make_view_line(LineKind::Inserted, None, Some(2), true, true),
    ];
    let (len, idx) = display_metrics(&view, ViewMode::UnifiedPane, AnimationPhase::Idle, 0, StepDirection::Forward, false);
    assert_eq!(len, 3);
    assert_eq!(idx, Some(2));
}

fn context_line(text: &str) -> ViewLine {
    let mut l = make_view_line(LineKind::Context, Some(1), Some(1), false, false);
    l.content = text.to_string();
    l
}

#[test]
fn folding_replaces_long_context_runs() {
    let mut view: Vec<ViewLine> = (0..10).map(|_| context_line("x")).collect();
    view.push(make_view_line(LineKind::Inserted, None, Some(11), true, true));
    let unchanged = fold_context_view(
        (0..3).map(|_| context_line("y")).collect(),
        FoldContextMode::On,
    );
    assert_eq!(unchanged.len(), 3);
    let folded = fold_context_view(view, FoldContextMode::Counts);
    assert_eq!(folded.len(), 2);
    assert_eq!(folded[0].content, "… 10 lines");
    assert!(is_fold_line(&folded[0]));
    assert_eq!(folded[1].kind, LineKind::Inserted);
    let off = fold_context_view((0..9).map(|_| context_line("z")).collect(), FoldContextMode::Off);
    assert_eq!(off.len(), 9);
    let plain = fold_context_view((0..9).map(|_| context_line("z")).collect(), FoldContextMode::On);
    assert_eq!(plain.len(), 1);
    assert_eq!(plain[0].content, "…");
}

#[test]
fn conflict_markers_are_found_after_indentation() {
    assert!(is_conflict_marker(&context_line("  <<<<<<< HEAD")));
    assert!(is_conflict_marker(&context_line("=======")));
    assert!(is_conflict_marker(&context_line(">>>>>>> branch")));
    assert!(!is_conflict_marker(&context_line("<<<<<< six")));
}

fn span(kind: ChangeKind, text: &str, new_text: Option<&str>) -> ChangeSpan {
    ChangeSpan { kind, text: text.to_string(), new_text: new_text.map(|t| t.to_string()), old_line: None, new_line: None }
}

#[test]
fn change_texts_by_side() {
    let change = Change {
        id: 0,
        spans: vec![
            span(ChangeKind::Equal, "a ", None),
            span(ChangeKind::Replace, "b", Some("B")),
            span(ChangeKind::Delete, "c", None),
            span(ChangeKind::Insert, "d", None),
        ],
    };
    assert_eq!(old_text_for_change(&change), "a bc");
    assert_eq!(inline_text_for_change(&change), "a bBcd");
    assert_eq!(modified_only_text_for_change(&change), "a Bd");
}

#[test]
fn change_conflict_marker_on_either_side() {
    let change = Change { id: 0, spans: vec![span(ChangeKind::Insert, "x\n>>>>>>> theirs", None)] };
    assert!(change_has_conflict_marker(&change));
    let clean = Change { id: 1, spans: vec![span(ChangeKind::Delete, "plain", None)] };
    assert!(!change_has_conflict_marker(&clean));
}

#[test]
fn point_in_rect_uses_saturating_edges() {
    assert!(point_in_rect((2, 3, 4, 5), 2, 3));
    assert!(!point_in_rect((2, 3, 4, 5), 6, 3));
    assert!(point_in_rect((2, 3, 4, 5), 5, 7));
    assert!(!point_in_rect((2, 3, 4, 5), 5, 8));
    assert!(point_in_rect((65530, 0, 100, 1), 65534, 0));
    assert!(!point_in_rect((65530, 0, 100, 1), 65535, 0));
}
