use oyo::config::FoldContextMode;
use oyo::frame::{
    applied_window, choose_view_source, followed_change, has_visible_line, plan_view, ViewCacheKey, ViewPlan,
    ViewSource,
};
use oyo::playback::AnimationFrame;
use oyo::types::{StepDirection, ViewMode};
use oyo::view::{LineKind, ViewLine};
use oyo::window::ViewWindow;

fn key(file_index: usize, current_step: usize) -> ViewCacheKey {
    ViewCacheKey {
        file_index,
        view_mode: ViewMode::UnifiedPane,
        frame: AnimationFrame::Idle,
        current_step,
        active_change: None,
        cursor_change: None,
        animating_hunk: None,
        step_direction: StepDirection::Stationary,
        current_hunk: 0,
        last_nav_was_hunk: false,
        hunk_preview_mode: false,
        preview_from_backward: false,
        show_hunk_extent_while_stepping: false,
        placeholder_view: false,
        fold_context: FoldContextMode::Off,
        viewport_height: 40,
        windowed: false,
        window_start: 0,
    }
}

fn line(kind: LineKind, is_active_change: bool) -> ViewLine {
    ViewLine {
        content: String::new(),
        spans: Vec::new(),
        kind,
        old_line: None,
        new_line: None,
        is_active: false,
        is_active_change,
        is_primary_active: false,
        show_hunk_extent: false,
        change_id: 0,
        hunk_index: None,
        has_changes: false,
    }
}

#[test]
fn cache_is_reused_under_the_same_key() {
    assert_eq!(choose_view_source(Some(key(0, 3)), key(0, 3), true, 0), (ViewSource::Cached, true));
    assert_eq!(choose_view_source(Some(key(0, 3)), key(0, 3), false, 0), (ViewSource::Cached, false));
}

#[test]
fn deferred_build_shows_the_same_file_once() {
    assert_eq!(choose_view_source(Some(key(0, 3)), key(0, 4), true, 0), (ViewSource::CachedPending, false));
    assert_eq!(choose_view_source(Some(key(0, 3)), key(1, 0), true, 1), (ViewSource::Build, false));
    assert_eq!(choose_view_source(None, key(0, 0), true, 0), (ViewSource::Build, false));
    assert_eq!(choose_view_source(Some(key(0, 3)), key(0, 4), false, 0), (ViewSource::Build, false));
}

#[test]
fn followed_change_prefers_the_active_one() {
    assert_eq!(followed_change(Some(7), &vec![1, 2], &vec![5]), Some(7));
    assert_eq!(followed_change(None, &vec![1, 2], &vec![5]), Some(2));
    assert_eq!(followed_change(None, &vec![], &vec![5, 6]), Some(5));
    assert_eq!(followed_change(None, &vec![], &vec![]), None);
}

#[test]
fn plan_uses_the_window_then_the_followed_change() {
    let w = ViewWindow { start: 10, end: 50, total_len: 1000 };
    assert_eq!(plan_view(Some(w), true, true, Some(3), 40), ViewPlan::Range { start: 10, end: 50 });
    assert_eq!(plan_view(None, true, true, Some(3), 40), ViewPlan::Around { change: 3, radius: 200 });
    assert_eq!(plan_view(None, true, true, Some(3), 60), ViewPlan::Around { change: 3, radius: 240 });
    assert_eq!(plan_view(None, true, true, None, 60), ViewPlan::Whole);
    assert_eq!(plan_view(None, false, true, Some(3), 60), ViewPlan::Whole);
    assert_eq!(plan_view(None, true, false, Some(3), 60), ViewPlan::Whole);
}

#[test]
fn deleted_lines_do_not_show_in_evolution() {
    let view = vec![line(LineKind::Deleted, false), line(LineKind::PendingDelete, true)];
    assert!(!has_visible_line(&view, false, AnimationFrame::Idle));
    assert!(has_visible_line(&view, false, AnimationFrame::FadeOut));
    assert!(!has_visible_line(&view, true, AnimationFrame::FadeOut));
    let with_context = vec![line(LineKind::Deleted, false), line(LineKind::Context, false)];
    assert!(has_visible_line(&with_context, true, AnimationFrame::Idle));
    assert!(!has_visible_line(&Vec::new(), false, AnimationFrame::Idle));
}

#[test]
fn applied_window_prefers_the_evolution_numbers() {
    let w = ViewWindow { start: 10, end: 50, total_len: 1000 };
    assert_eq!(applied_window(Some(w), None, None), (10, Some(1000)));
    assert_eq!(applied_window(Some(w), Some(4), Some(90)), (4, Some(90)));
    assert_eq!(applied_window(None, None, None), (0, None));
    assert_eq!(applied_window(None, Some(2), None), (2, None));
}
