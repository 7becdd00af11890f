use oyo::types::{StepDirection, ViewMode};
use oyo::window::{
    center_change, center_scroll, compute_view_window, keep_active_visible, ViewWindow,
    WindowRequest,
};

fn request(total_len: usize, scroll_offset: usize) -> WindowRequest {
    WindowRequest {
        line_wrap: false,
        file_is_large: true,
        view_mode: ViewMode::UnifiedPane,
        split_align_lines: false,
        fold_enabled: false,
        allow_overscroll: false,
        total_len,
        viewport_height: 10,
        scroll_offset,
        stepping: false,
        active_index: None,
        needs_scroll_to_active: false,
        current_start: None,
    }
}

fn window(start: usize, end: usize, total_len: usize) -> Option<ViewWindow> {
    Some(ViewWindow { start, end, total_len })
}

#[test]
fn window_follows_the_scroll_position() {
    let q = request(1000, 500);
    assert_eq!(compute_view_window(&q), (500, window(450, 650, 1000)));
    let kept = WindowRequest { current_start: Some(400), ..q };
    assert_eq!(compute_view_window(&kept), (500, window(400, 600, 1000)));
    let moved = WindowRequest { current_start: Some(100), ..q };
    assert_eq!(compute_view_window(&moved), (500, window(450, 650, 1000)));
}

#[test]
fn small_files_and_other_modes() {
    assert_eq!(compute_view_window(&request(100, 5)), (5, window(0, 99, 100)));
    let evo = WindowRequest { view_mode: ViewMode::Evolution, ..request(1000, 5) };
    assert_eq!(compute_view_window(&evo), (5, None));
    let wrapped = WindowRequest { line_wrap: true, ..request(1000, 5) };
    assert_eq!(compute_view_window(&wrapped), (5, None));
    let split = WindowRequest { view_mode: ViewMode::Split, split_align_lines: true, ..request(100, 5) };
    assert_eq!(compute_view_window(&split), (5, window(0, 99, 100)));
    assert_eq!(compute_view_window(&request(0, 5)), (5, None));
}

#[test]
fn scroll_is_clamped_to_its_range() {
    assert_eq!(compute_view_window(&request(1000, 2000)), (990, window(940, 999, 1000)));
}

#[test]
fn stepping_window_follows_the_active_change() {
    let q = WindowRequest { stepping: true, active_index: Some(700), ..request(1000, 500) };
    assert_eq!(compute_view_window(&q), (500, window(450, 650, 1000)));
    let pending = WindowRequest { needs_scroll_to_active: true, ..q };
    assert_eq!(compute_view_window(&pending), (500, window(500, 900, 1000)));
    let none = WindowRequest { active_index: None, ..q };
    assert_eq!(compute_view_window(&none), (500, None));
}

#[test]
fn centring_picks_the_change_and_row() {
    assert_eq!(center_change(Some(3), None, Some(5), Some(1), StepDirection::Stationary), Some(3));
    assert_eq!(center_change(Some(3), Some(4), Some(5), Some(1), StepDirection::Backward), Some(5));
    assert_eq!(center_change(None, None, Some(5), Some(1), StepDirection::Forward), Some(5));
    assert_eq!(center_change(None, None, None, Some(1), StepDirection::Forward), Some(1));
    assert_eq!(center_scroll(7, 10, 50, Some(30), false), 25);
    assert_eq!(center_scroll(7, 10, 50, Some(3), false), 0);
    assert_eq!(center_scroll(7, 10, 50, None, false), 0);
    assert_eq!(center_scroll(7, 10, 50, None, true), 7);
}

#[test]
fn active_row_is_kept_within_margins() {
    assert_eq!(keep_active_visible(10, 10, 0, 20, 50, Some(11), false), 8);
    assert_eq!(keep_active_visible(10, 10, 0, 20, 50, Some(28), false), 12);
    assert_eq!(keep_active_visible(10, 10, 0, 20, 50, Some(20), false), 10);
    assert_eq!(keep_active_visible(10, 10, 100, 20, 50, Some(11), false), 108);
    assert_eq!(keep_active_visible(10, 10, 0, 20, 0, None, false), 10);
}
