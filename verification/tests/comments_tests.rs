use oyo::anchors::{resolve_line_review_anchor, ReviewAnchor, ReviewComment, ReviewCommentOverlay};
use oyo::comments::{
    clear_all_review_comments, handle_review_preview_click, kept_mention_selection, mention_scroll_start,
    open_review_editor, remove_comment_for_anchor_key, review_preview_hint_text, review_visible_lines_with_idx,
    ReviewPreviewBox,
};
use oyo::editor::{review_save_editor, ReviewEditorState};
use oyo::types::ViewMode;
use oyo::view::{LineKind, ViewLine};

fn line(kind: LineKind, old_line: Option<usize>, new_line: Option<usize>) -> ViewLine {
    ViewLine {
        content: String::new(),
        spans: vec![],
        kind,
        old_line,
        new_line,
        is_active: false,
        is_active_change: false,
        is_primary_active: false,
        show_hunk_extent: false,
        change_id: 0,
        hunk_index: Some(0),
        has_changes: true,
    }
}

fn anchor_at(new_line: usize) -> ReviewAnchor {
    let l = line(LineKind::Inserted, None, Some(new_line));
    resolve_line_review_anchor(0, "f.rs", &[(0, l)], 0).unwrap()
}

fn comment(id: u64, anchor: ReviewAnchor, body: &str) -> ReviewComment {
    ReviewComment { id, anchor, body: body.to_string(), created_at: 0, updated_at: 0 }
}

#[test]
fn opening_the_editor_reads_back_a_saved_comment() {
    let mut comments: Vec<ReviewComment> = Vec::new();
    let mut next_id = 1;
    let editor = ReviewEditorState { anchor: anchor_at(3), text: "looks off  ".to_string(), cursor: 0 };
    review_save_editor(&mut comments, editor, &mut next_id, 10);
    let opened = open_review_editor(&comments, anchor_at(3));
    assert_eq!(opened.text, "looks off");
    assert_eq!(opened.cursor, 9);
    let fresh = open_review_editor(&comments, anchor_at(4));
    assert_eq!((fresh.text.as_str(), fresh.cursor), ("", 0));
    let wide = vec![comment(1, anchor_at(5), "héllo")];
    assert_eq!(open_review_editor(&wide, anchor_at(5)).cursor, 6);
}

#[test]
fn removing_and_clearing_comments() {
    let mut comments = vec![comment(1, anchor_at(3), "a"), comment(2, anchor_at(4), "b")];
    let key = anchor_at(3).anchor_key;
    assert!(remove_comment_for_anchor_key(&mut comments, &key));
    assert_eq!(comments.len(), 1);
    assert!(!remove_comment_for_anchor_key(&mut comments, &key));
    let mut next_id = 9;
    assert!(!clear_all_review_comments(false, &mut comments, &mut next_id));
    assert_eq!((comments.len(), next_id), (1, 9));
    assert!(clear_all_review_comments(true, &mut comments, &mut next_id));
    assert_eq!((comments.len(), next_id), (0, 1));
    assert!(!clear_all_review_comments(true, &mut comments, &mut next_id));
}

#[test]
fn clicking_a_preview_opens_its_comment() {
    let comments = vec![comment(1, anchor_at(3), "first"), comment(2, anchor_at(4), "second")];
    let boxes = vec![
        ReviewPreviewBox { x: 10, y: 2, width: 20, height: 1, anchor_key: anchor_at(3).anchor_key },
        ReviewPreviewBox { x: 10, y: 2, width: 5, height: 1, anchor_key: anchor_at(4).anchor_key },
    ];
    // The box drawn last wins where they overlap.
    let e = handle_review_preview_click(true, false, &boxes, &comments, 12, 2).unwrap();
    assert_eq!(e.text, "second");
    let e = handle_review_preview_click(true, false, &boxes, &comments, 20, 2).unwrap();
    assert_eq!((e.text.as_str(), e.cursor), ("first", 5));
    assert!(handle_review_preview_click(true, false, &boxes, &comments, 40, 2).is_none());
    assert!(handle_review_preview_click(true, true, &boxes, &comments, 12, 2).is_none());
    assert!(handle_review_preview_click(false, false, &boxes, &comments, 12, 2).is_none());
}

#[test]
fn preview_hint_names_the_keys() {
    let mut overlay = ReviewCommentOverlay {
        display_idx: 0,
        preview: "nit".to_string(),
        anchor_key: String::new(),
        prefer_right: true,
        is_hunk: false,
    };
    assert_eq!(review_preview_hint_text(&overlay), "nit • m to update, x to remove");
    overlay.is_hunk = true;
    assert_eq!(review_preview_hint_text(&overlay), "nit • M to update, X to remove");
}

#[test]
fn review_rows_skip_deleted_lines_in_evolution() {
    let view = vec![
        line(LineKind::Context, Some(1), Some(1)),
        line(LineKind::Deleted, Some(2), None),
        line(LineKind::Inserted, None, Some(2)),
    ];
    let rows = review_visible_lines_with_idx(&view, ViewMode::UnifiedPane);
    assert_eq!(rows.iter().map(|(i, _)| *i).collect::<Vec<_>>(), vec![0, 1, 2]);
    let rows = review_visible_lines_with_idx(&view, ViewMode::Evolution);
    assert_eq!(rows.len(), 2);
    assert_eq!((rows[1].0, rows[1].1.new_line), (1, Some(2)));
}

#[test]
fn mention_picker_scrolls_and_keeps_selection() {
    assert_eq!(mention_scroll_start(0, 10), 0);
    assert_eq!(mention_scroll_start(1, 10), 0);
    assert_eq!(mention_scroll_start(4, 10), 2);
    assert_eq!(mention_scroll_start(9, 10), 5);
    assert_eq!(mention_scroll_start(3, 4), 0);
    assert_eq!(kept_mention_selection(true, Some(3), 10), 3);
    assert_eq!(kept_mention_selection(true, Some(12), 10), 9);
    assert_eq!(kept_mention_selection(false, Some(3), 10), 0);
    assert_eq!(kept_mention_selection(true, None, 10), 0);
}
