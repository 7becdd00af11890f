use oyo::config::FoldContextMode;
use oyo::scroll::{
    clamp_horizontal_scroll, clamp_scroll, scroll_down, scroll_half_page_down, scroll_half_page_up, scroll_left,
    scroll_right, scroll_to_line_end, scroll_up, toggle_fold_context, toggle_line_wrap,
};

#[test]
fn vertical_scrolling() {
    assert_eq!(scroll_up(0), 0);
    assert_eq!(scroll_up(scroll_down(7)), 7);
    assert_eq!(scroll_half_page_up(5, 20), 0);
    assert_eq!(scroll_half_page_up(25, 20), 15);
    assert_eq!(scroll_half_page_down(25, 21), 35);
    assert_eq!(clamp_scroll(90, 100, 20, false), 80);
    assert_eq!(clamp_scroll(95, 100, 20, true), 89);
    assert_eq!(clamp_scroll(10, 100, 20, false), 10);
    assert_eq!(clamp_scroll(10, 5, 20, false), 0);
}

#[test]
fn horizontal_scrolling() {
    assert_eq!(scroll_left(10, false), 6);
    assert_eq!(scroll_left(2, false), 0);
    assert_eq!(scroll_left(10, true), 10);
    assert_eq!(scroll_right(10, false), 14);
    assert_eq!(scroll_right(10, true), 10);
    assert_eq!(scroll_to_line_end(3, false), usize::MAX / 2);
    assert_eq!(clamp_horizontal_scroll(usize::MAX / 2, false, 120, 80, false), 40);
    assert_eq!(clamp_horizontal_scroll(30, false, 120, 80, false), 30);
    assert_eq!(clamp_horizontal_scroll(30, false, 0, 80, true), 30);
    assert_eq!(clamp_horizontal_scroll(30, false, 0, 80, false), 0);
    assert_eq!(clamp_horizontal_scroll(30, true, 10, 80, false), 30);
}

#[test]
fn wrap_and_fold_toggles() {
    assert_eq!(toggle_line_wrap(false, 12), (true, 0));
    assert_eq!(toggle_line_wrap(true, 12), (false, 12));
    assert_eq!(toggle_fold_context(FoldContextMode::Counts, FoldContextMode::Counts), FoldContextMode::Off);
    assert_eq!(toggle_fold_context(FoldContextMode::Off, FoldContextMode::Counts), FoldContextMode::Counts);
    assert_eq!(toggle_fold_context(FoldContextMode::Off, FoldContextMode::Off), FoldContextMode::On);
}

#[test]
fn clamping_twice_is_clamping_once() {
    let once = clamp_scroll(500, 100, 20, true);
    assert_eq!(clamp_scroll(once, 100, 20, true), once);
}
