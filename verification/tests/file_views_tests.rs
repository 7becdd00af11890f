use oyo::file_views::{mark_visited, new_file_views, restore_scroll_position, save_scroll_position};

#[test]
fn new_views_start_at_the_top_unvisited() {
    let v = new_file_views(3);
    assert_eq!(v.scroll_offsets_step, vec![0, 0, 0]);
    assert_eq!(v.horizontal_scrolls_no_step, vec![0, 0, 0]);
    assert_eq!(v.files_visited, vec![false, false, false]);
    assert_eq!(v.no_step_visited, vec![false, false, false]);
    assert_eq!(restore_scroll_position(&v, true, 2), (Some(0), Some(0)));
    assert_eq!(restore_scroll_position(&v, true, 3), (None, None));
}

#[test]
fn saved_positions_read_back_per_mode() {
    let mut v = new_file_views(2);
    save_scroll_position(&mut v, true, 1, 40, 8);
    save_scroll_position(&mut v, false, 1, 7, 0);
    save_scroll_position(&mut v, true, 0, 3, 1);
    save_scroll_position(&mut v, true, 5, 9, 9);
    assert_eq!(restore_scroll_position(&v, true, 1), (Some(40), Some(8)));
    assert_eq!(restore_scroll_position(&v, false, 1), (Some(7), Some(0)));
    assert_eq!(restore_scroll_position(&v, true, 0), (Some(3), Some(1)));
}

#[test]
fn visits_are_marked_per_mode() {
    let mut v = new_file_views(2);
    mark_visited(&mut v, true, 0);
    mark_visited(&mut v, false, 1);
    mark_visited(&mut v, false, 4);
    assert_eq!(v.files_visited, vec![true, true]);
    assert_eq!(v.no_step_visited, vec![false, true]);
}
