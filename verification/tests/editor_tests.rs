use oyo::anchors::{resolve_line_review_anchor, ReviewAnchor, ReviewComment};
use oyo::editor::{
    review_accept_mention_text, review_backspace, review_clear_editor_text, review_delete,
    review_insert_char, review_insert_newline, review_move_down, review_move_end,
    review_move_home, review_move_left, review_move_right, review_move_up, review_save_editor,
    review_editor_render, anchor_label, ReviewEditorState,
};
use oyo::anchors::ReviewTargetKind;
use oyo::review::{ReviewRange, ReviewSide};
use oyo::view::{LineKind, ViewLine};

fn anchor() -> ReviewAnchor {
    let line = ViewLine {
        content: String::new(),
        spans: vec![],
        kind: LineKind::Inserted,
        old_line: None,
        new_line: Some(7),
        is_active: false,
        is_active_change: false,
        is_primary_active: false,
        show_hunk_extent: false,
        change_id: 0,
        hunk_index: Some(0),
        has_changes: true,
    };
    resolve_line_review_anchor(0, "f.rs", &[(0, line)], 0).unwrap()
}

fn editor(text: &str, cursor: usize) -> ReviewEditorState {
    ReviewEditorState { anchor: anchor(), text: text.to_string(), cursor }
}

#[test]
fn typing_and_backspace() {
    let mut e = editor("ab", 1);
    review_insert_char(&mut e, 'é');
    assert_eq!((e.text.as_str(), e.cursor), ("aéb", 3));
    review_backspace(&mut e);
    assert_eq!((e.text.as_str(), e.cursor), ("ab", 1));
    review_insert_newline(&mut e);
    assert_eq!((e.text.as_str(), e.cursor), ("a\nb", 2));
    let mut start = editor("ab", 0);
    review_backspace(&mut start);
    assert_eq!((start.text.as_str(), start.cursor), ("ab", 0));
}

#[test]
fn delete_and_clear() {
    let mut e = editor("aéb", 1);
    review_delete(&mut e);
    assert_eq!((e.text.as_str(), e.cursor), ("ab", 1));
    let mut end = editor("ab", 2);
    review_delete(&mut end);
    assert_eq!(end.text, "ab");
    review_clear_editor_text(&mut e);
    assert_eq!((e.text.as_str(), e.cursor), ("", 0));
}

#[test]
fn moving_by_characters() {
    let mut e = editor("aéb", 3);
    review_move_left(&mut e);
    assert_eq!(e.cursor, 1);
    review_move_left(&mut e);
    assert_eq!(e.cursor, 0);
    review_move_left(&mut e);
    assert_eq!(e.cursor, 0);
    review_move_right(&mut e);
    review_move_right(&mut e);
    assert_eq!(e.cursor, 3);
    review_move_right(&mut e);
    review_move_right(&mut e);
    assert_eq!(e.cursor, 4);
}

#[test]
fn moving_by_rows() {
    let mut e = editor("abc\nde\nfghij", 11);
    review_move_up(&mut e);
    assert_eq!(e.cursor, 6);
    review_move_down(&mut e);
    assert_eq!(e.cursor, 9);
    review_move_home(&mut e);
    assert_eq!(e.cursor, 7);
    let mut mid = editor("abc\nde\nfghij", 5);
    review_move_end(&mut mid);
    assert_eq!(mid.cursor, 6);
    let mut last = editor("abc\nde\nfghij", 8);
    review_move_end(&mut last);
    assert_eq!(last.cursor, 12);
    let mut top = editor("abc\nde", 1);
    review_move_up(&mut top);
    assert_eq!(top.cursor, 1);
    let mut bottom = editor("abc\nde", 5);
    review_move_down(&mut bottom);
    assert_eq!(bottom.cursor, 5);
}

#[test]
fn accepting_a_mention_replaces_the_query() {
    let mut e = editor("see @ma", 7);
    review_accept_mention_text(&mut e, 4, "@main.rs");
    assert_eq!((e.text.as_str(), e.cursor), ("see @main.rs", 12));
}

#[test]
fn saving_adds_updates_and_removes_comments() {
    let mut comments: Vec<ReviewComment> = Vec::new();
    let mut next_id = 1u64;
    review_save_editor(&mut comments, editor("Looks good  ", 0), &mut next_id, 100);
    assert_eq!(comments.len(), 1);
    assert_eq!(comments[0].body, "Looks good");
    assert_eq!((comments[0].id, comments[0].created_at, next_id), (1, 100, 2));
    review_save_editor(&mut comments, editor("see @src/lib.rs ", 0), &mut next_id, 200);
    assert_eq!(comments.len(), 1);
    assert_eq!(comments[0].body, "see @src/lib.rs ");
    assert_eq!((comments[0].id, comments[0].created_at, comments[0].updated_at), (1, 100, 200));
    review_save_editor(&mut comments, editor("   ", 0), &mut next_id, 300);
    assert!(comments.is_empty());
    assert_eq!(next_id, 2);
}

#[test]
fn editor_render_shows_lines_cursor_and_label() {
    let e = editor("first\nsecond", 8);
    let r = review_editor_render(Some(&e), &[]).unwrap();
    assert_eq!(r.title, " Comment ");
    assert_eq!(r.anchor_label, "f.rs new:7");
    assert_eq!(r.lines, vec!["first".to_string(), "second".to_string()]);
    assert_eq!((r.cursor_row, r.cursor_col), (1, 2));
    assert!(!r.anchor_is_hunk);
    assert!(r.prefer_right);
    let empty = editor("", 0);
    let r = review_editor_render(Some(&empty), &[]).unwrap();
    assert_eq!(r.lines, vec![String::new()]);
    assert!(review_editor_render(None, &[]).is_none());
}

#[test]
fn hunk_label_names_both_ranges() {
    let mut a = anchor();
    a.kind = ReviewTargetKind::Hunk;
    a.old_range = Some(ReviewRange { start: 3, end: 5 });
    a.new_range = None;
    assert_eq!(anchor_label(&a), "f.rs old:3-5 new:-");
    let mut b = anchor();
    b.side = Some(ReviewSide::Old);
    b.old_range = Some(ReviewRange { start: 2, end: 2 });
    assert_eq!(anchor_label(&b), "f.rs old:2");
}
