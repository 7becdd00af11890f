use oyo::review::{
    cursor_for_row_col, cursor_row_col, format_opt_range, format_opt_range_display, line_starts,
    mention_query_at_cursor, merge_changed_and_repo_paths, nearest_hunk_line_index,
    next_char_boundary, preserve_ref_trailing_space, prev_char_boundary, truncate_preview_chars,
    ReviewRange, ReviewSide,
};
use oyo::view::{LineKind, ViewLine};

#[test]
fn preserve_space_for_trailing_line_reference() {
    assert!(preserve_ref_trailing_space("see @foo/new.rs:new:1234 "));
    assert!(preserve_ref_trailing_space("1234 "));
}

#[test]
fn preserve_space_for_trailing_file_reference() {
    assert!(preserve_ref_trailing_space("see @foo/new.rs "));
    assert!(preserve_ref_trailing_space("@foo/new.rs "));
    assert!(preserve_ref_trailing_space("see\n@foo/new.rs:old:abc "));
}

#[test]
fn do_not_preserve_unrelated_trailing_space() {
    assert!(!preserve_ref_trailing_space("plain text "));
    assert!(!preserve_ref_trailing_space("@ "));
    assert!(!preserve_ref_trailing_space("no trailing space"));
    assert!(!preserve_ref_trailing_space("ends with tab\t"));
}

#[test]
fn review_side_names() {
    assert_eq!(ReviewSide::Old.as_str(), "old");
    assert_eq!(ReviewSide::New.as_str(), "new");
}

#[test]
fn range_labels() {
    assert_eq!(format_opt_range(Some(ReviewRange { start: 3, end: 7 })), "3-7");
    assert_eq!(format_opt_range(Some(ReviewRange { start: 4, end: 4 })), "4-4");
    assert_eq!(format_opt_range(None), "-");
    assert_eq!(format_opt_range_display(Some(ReviewRange { start: 4, end: 4 })), "4");
    assert_eq!(format_opt_range_display(Some(ReviewRange { start: 10, end: 12 })), "10-12");
    assert_eq!(format_opt_range_display(None), "-");
}

#[test]
fn previews_are_cut_with_an_ellipsis() {
    assert_eq!(truncate_preview_chars("hello", 10), ("hello".to_string(), false));
    assert_eq!(truncate_preview_chars("hello", 5), ("hello".to_string(), false));
    assert_eq!(truncate_preview_chars("hello world", 5), ("hell…".to_string(), true));
    assert_eq!(truncate_preview_chars("héllo", 0), (String::new(), true));
    assert_eq!(truncate_preview_chars("", 0), (String::new(), false));
}

#[test]
fn merged_paths_keep_first_occurrences() {
    let changed = vec!["b".to_string(), "a".to_string(), "b".to_string()];
    let repo = vec!["c".to_string(), "a".to_string(), "d".to_string()];
    assert_eq!(
        merge_changed_and_repo_paths(&changed, &repo),
        vec!["b".to_string(), "a".to_string(), "c".to_string(), "d".to_string()]
    );
}

fn line(hunk: Option<usize>) -> (usize, ViewLine) {
    (
        0,
        ViewLine {
            content: String::new(),
            spans: vec![],
            kind: LineKind::Context,
            old_line: None,
            new_line: None,
            is_active: false,
            is_active_change: false,
            is_primary_active: false,
            show_hunk_extent: false,
            change_id: 0,
            hunk_index: hunk,
            has_changes: false,
        },
    )
}

#[test]
fn nearest_hunk_line_prefers_right_on_ties() {
    let visible = vec![line(Some(0)), line(None), line(None), line(None), line(Some(1))];
    assert_eq!(nearest_hunk_line_index(&visible, 0), Some(0));
    assert_eq!(nearest_hunk_line_index(&visible, 1), Some(0));
    assert_eq!(nearest_hunk_line_index(&visible, 2), Some(4));
    assert_eq!(nearest_hunk_line_index(&visible, 3), Some(4));
    assert_eq!(nearest_hunk_line_index(&visible, 99), Some(4));
    assert_eq!(nearest_hunk_line_index(&[line(None), line(None)], 0), None);
    assert_eq!(nearest_hunk_line_index(&[], 0), None);
}

#[test]
fn line_starts_are_byte_offsets() {
    assert_eq!(line_starts("ab\nc\n"), vec![0, 3, 5]);
    assert_eq!(line_starts("é\nx"), vec![0, 3]);
    assert_eq!(line_starts(""), vec![0]);
}

#[test]
fn cursor_rows_and_columns() {
    let text = "ab\ncdé\nf";
    assert_eq!(cursor_row_col(text, 0), (0, 0));
    assert_eq!(cursor_row_col(text, 2), (0, 2));
    assert_eq!(cursor_row_col(text, 3), (1, 0));
    assert_eq!(cursor_row_col(text, 7), (1, 3));
    assert_eq!(cursor_row_col(text, 100), (2, 1));
    assert_eq!(cursor_for_row_col(text, 1, 3), 7);
    assert_eq!(cursor_for_row_col(text, 1, 50), 7);
    assert_eq!(cursor_for_row_col(text, 9, 0), 8);
    // Round trip on every boundary.
    for c in [0usize, 1, 2, 3, 4, 5, 7, 8, 9] {
        let (r, col) = cursor_row_col(text, c);
        assert_eq!(cursor_for_row_col(text, r, col), c);
    }
}

#[test]
fn char_boundaries_step_over_multibyte_chars() {
    let text = "aé€b";
    assert_eq!(next_char_boundary(text, 0), 1);
    assert_eq!(next_char_boundary(text, 1), 3);
    assert_eq!(next_char_boundary(text, 3), 6);
    assert_eq!(next_char_boundary(text, 7), 7);
    assert_eq!(prev_char_boundary(text, 6), 3);
    assert_eq!(prev_char_boundary(text, 3), 1);
    assert_eq!(prev_char_boundary(text, 0), 0);
    assert_eq!(prev_char_boundary(text, next_char_boundary(text, 1)), 1);
}

#[test]
fn mention_query_reads_back_to_the_at_sign() {
    assert_eq!(mention_query_at_cursor("see @src/ma", 11), Some((4, "src/ma".to_string())));
    assert_eq!(mention_query_at_cursor("see @src/ma", 100), Some((4, "src/ma".to_string())));
    assert_eq!(mention_query_at_cursor("see @src ma", 11), None);
    assert_eq!(mention_query_at_cursor("no mention", 5), None);
    assert_eq!(mention_query_at_cursor("é@x", 4), Some((2, "x".to_string())));
}
