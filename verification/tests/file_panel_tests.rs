use oyo::file_panel::{
    clamp_file_panel_width, clamped_selection, drag_file_panel_resize, ensure_selection_matches_filter,
    handle_file_list_click, list_click_selection, resize_file_panel, start_file_panel_resize, toggle_file_panel,
    update_file_list_scroll, FileListClick, FilePanelPosition, PanelVisibility, DIFF_VIEW_MIN_WIDTH,
    FILE_PANEL_MIN_WIDTH,
};

#[test]
fn click_on_filter_input_starts_filter() {
    let r = handle_file_list_click(Some((0, 20, 10, 1)), Some((0, 0, 10, 20)), &[], false, 3, 20);
    assert_eq!(r, FileListClick::StartFilter);
}

#[test]
fn click_outside_panel_unfocuses_only_when_focused() {
    let list = Some((0, 0, 10, 5));
    assert_eq!(handle_file_list_click(None, list, &[Some(0)], true, 12, 1), FileListClick::Unfocus);
    assert_eq!(handle_file_list_click(None, list, &[Some(0)], false, 12, 1), FileListClick::Ignored);
    assert_eq!(handle_file_list_click(None, None, &[], true, 0, 0), FileListClick::Unfocus);
    assert_eq!(handle_file_list_click(None, None, &[], false, 0, 0), FileListClick::Ignored);
}

#[test]
fn click_on_list_rows() {
    let list = Some((2, 1, 10, 6));
    let rows = [Some(4), None, Some(7)];
    // The title row focuses the panel.
    assert_eq!(handle_file_list_click(None, list, &rows, false, 3, 1), FileListClick::Focus);
    // Item rows start one below the top.
    assert_eq!(handle_file_list_click(None, list, &rows, false, 3, 2), FileListClick::Select(4));
    assert_eq!(handle_file_list_click(None, list, &rows, false, 3, 3), FileListClick::Focus);
    assert_eq!(handle_file_list_click(None, list, &rows, false, 3, 4), FileListClick::Select(7));
    // Below the last item row but inside the list.
    assert_eq!(handle_file_list_click(None, list, &rows, false, 3, 6), FileListClick::Focus);
    // Right edge is outside.
    assert_eq!(handle_file_list_click(None, list, &rows, true, 12, 2), FileListClick::Unfocus);
}

#[test]
fn area_at_the_screen_edge_saturates() {
    let list = Some((65530, 65530, 100, 100));
    assert_eq!(handle_file_list_click(None, list, &[Some(1)], false, 65534, 65531), FileListClick::Select(1));
    assert_eq!(handle_file_list_click(None, list, &[Some(1)], false, 65535, 65531), FileListClick::Ignored);
}

#[test]
fn panel_toggle_first_follows_auto_hide_then_flips() {
    let auto = PanelVisibility { manually_set: false, visible: true, focused: true };
    let hidden = toggle_file_panel(auto, false);
    assert_eq!(hidden, PanelVisibility { manually_set: true, visible: false, focused: false });
    let shown = toggle_file_panel(PanelVisibility { manually_set: false, visible: false, focused: false }, true);
    assert_eq!(shown, PanelVisibility { manually_set: true, visible: true, focused: false });
    assert_eq!(toggle_file_panel(hidden, false).visible, true);
    assert_eq!(toggle_file_panel(toggle_file_panel(hidden, true), true).visible, false);
}

#[test]
fn panel_width_stays_within_bounds() {
    assert_eq!((FILE_PANEL_MIN_WIDTH, DIFF_VIEW_MIN_WIDTH), (24, 50));
    assert_eq!(clamp_file_panel_width(10, 200), 24);
    assert_eq!(clamp_file_panel_width(100, 200), 100);
    assert_eq!(clamp_file_panel_width(180, 200), 150);
    // A narrow screen still leaves the panel its minimum.
    assert_eq!(clamp_file_panel_width(60, 60), 24);
    assert_eq!(resize_file_panel(30, 5, 200), 35);
    assert_eq!(resize_file_panel(30, -20, 200), 24);
    assert_eq!(resize_file_panel(30, i16::MAX, 200), 150);
}

#[test]
fn resizing_follows_the_border() {
    let rect = Some((0, 1, 30, 10));
    assert!(start_file_panel_resize(rect, FilePanelPosition::Left, 29, 5));
    assert!(!start_file_panel_resize(rect, FilePanelPosition::Left, 28, 5));
    assert!(!start_file_panel_resize(rect, FilePanelPosition::Left, 29, 11));
    assert!(start_file_panel_resize(Some((70, 0, 30, 10)), FilePanelPosition::Right, 70, 0));
    assert!(!start_file_panel_resize(None, FilePanelPosition::Left, 0, 0));
    assert_eq!(drag_file_panel_resize(true, rect, FilePanelPosition::Left, 39, 200), Some(40));
    assert_eq!(drag_file_panel_resize(true, Some((70, 0, 30, 10)), FilePanelPosition::Right, 60, 200), Some(40));
    assert_eq!(drag_file_panel_resize(false, rect, FilePanelPosition::Left, 39, 200), None);
    assert_eq!(drag_file_panel_resize(true, None, FilePanelPosition::Left, 39, 200), None);
}

#[test]
fn picker_clicks_select_by_row() {
    let area = Some((5, 10, 20, 8));
    assert_eq!(list_click_selection(area, 2, 3, 4, 6, 10), Some(4));
    assert_eq!(list_click_selection(area, 2, 3, 4, 6, 13), Some(5));
    assert_eq!(list_click_selection(area, 2, 3, 4, 6, 16), None);
    assert_eq!(list_click_selection(area, 0, 10, 0, 6, 12), Some(2));
    assert_eq!(list_click_selection(area, 1, 10, 0, 4, 12), None);
    assert_eq!(list_click_selection(None, 1, 10, 0, 6, 12), None);
    assert_eq!(clamped_selection(0, 7), 0);
    assert_eq!(clamped_selection(3, 7), 2);
    assert_eq!(clamped_selection(3, 1), 1);
}

#[test]
fn file_list_scroll_keeps_selection_in_view() {
    let indices: Vec<usize> = (0..50).collect();
    assert_eq!(update_file_list_scroll(&indices, 5, 10), 5);
    assert_eq!(update_file_list_scroll(&indices, 25, 0), 6);
    assert_eq!(update_file_list_scroll(&indices, 12, 0), 0);
    assert_eq!(update_file_list_scroll(&[], 3, 9), 0);
    assert_eq!(update_file_list_scroll(&[4, 8], 99, 3), 0);
}

#[test]
fn filter_moves_selection_to_first_match() {
    assert_eq!(ensure_selection_matches_filter(false, &[3, 5], 1), Some(3));
    assert_eq!(ensure_selection_matches_filter(false, &[3, 5], 5), None);
    assert_eq!(ensure_selection_matches_filter(true, &[3, 5], 1), None);
    assert_eq!(ensure_selection_matches_filter(false, &[], 1), None);
}
