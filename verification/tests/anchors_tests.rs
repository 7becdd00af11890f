use oyo::anchors::{
    comment_preview, format_review_comment, resolve_hunk_review_anchor, resolve_line_review_anchor,
    review_anchor_display_span, review_comment_overlays_for_current_file, ReviewComment,
    ReviewTargetKind,
};
use oyo::review::{ReviewRange, ReviewSide};
use oyo::view::{LineKind, ViewLine};

fn line(kind: LineKind, old_line: Option<usize>, new_line: Option<usize>, hunk: Option<usize>) -> ViewLine {
    ViewLine {
        content: String::new(),
        spans: vec![],
        kind,
        old_line,
        new_line,
        is_active: false,
        is_active_change: false,
        is_primary_active: false,
        show_hunk_extent: false,
        change_id: 0,
        hunk_index: hunk,
        has_changes: hunk.is_some(),
    }
}

fn visible() -> Vec<(usize, ViewLine)> {
    vec![
        (0, line(LineKind::Context, Some(1), Some(1), None)),
        (1, line(LineKind::Deleted, Some(2), None, Some(0))),
        (2, line(LineKind::Inserted, None, Some(2), Some(0))),
        (3, line(LineKind::Context, Some(3), Some(3), None)),
    ]
}

#[test]
fn line_anchor_takes_the_nearest_hunk_line() {
    let v = visible();
    let a = resolve_line_review_anchor(4, "f.rs", &v, 0).unwrap();
    assert_eq!(a.kind, ReviewTargetKind::Line);
    assert_eq!(a.side, Some(ReviewSide::Old));
    assert_eq!(a.old_range, Some(ReviewRange { start: 2, end: 2 }));
    assert_eq!(a.new_range, None);
    assert_eq!(a.hunk_id, Some(0));
    assert_eq!(a.display_idx_hint, Some(1));
    assert_eq!(a.file_index, 4);
    assert_eq!(a.anchor_key, "line|f.rs|old|2");
    assert!(resolve_line_review_anchor(0, "", &v, 0).is_none());
    assert!(resolve_line_review_anchor(0, "f.rs", &[], 0).is_none());
}

#[test]
fn line_anchor_follows_the_primary_active_line() {
    let mut v = visible();
    v[2].1.is_primary_active = true;
    let a = resolve_line_review_anchor(0, "f.rs", &v, 0).unwrap();
    assert_eq!(a.side, Some(ReviewSide::New));
    assert_eq!(a.anchor_key, "line|f.rs|new|2");
    assert_eq!(a.display_idx_hint, Some(2));
}

#[test]
fn hunk_anchor_spans_the_hunk_lines() {
    let v = visible();
    let a = resolve_hunk_review_anchor(0, "f.rs", &v, 3).unwrap();
    assert_eq!(a.kind, ReviewTargetKind::Hunk);
    assert_eq!(a.side, None);
    assert_eq!(a.old_range, Some(ReviewRange { start: 2, end: 2 }));
    assert_eq!(a.new_range, Some(ReviewRange { start: 2, end: 2 }));
    assert_eq!(a.display_idx_hint, Some(1));
    assert_eq!(a.anchor_key, "hunk|f.rs|2-2|2-2");
    assert_eq!(review_anchor_display_span(&a, &v), Some((1, 2)));
    assert_eq!(review_anchor_display_span(&a, &[]), Some((1, 1)));
    let l = resolve_line_review_anchor(0, "f.rs", &v, 0).unwrap();
    assert_eq!(review_anchor_display_span(&l, &v), Some((1, 1)));
}

fn comment(anchor_from_hunk: bool, path: &str, body: &str) -> ReviewComment {
    let v = visible();
    let anchor = if anchor_from_hunk {
        resolve_hunk_review_anchor(0, path, &v, 0).unwrap()
    } else {
        resolve_line_review_anchor(0, path, &v, 0).unwrap()
    };
    ReviewComment { id: 1, anchor, body: body.to_string(), created_at: 0, updated_at: 0 }
}

#[test]
fn overlays_show_previews_of_this_files_comments() {
    let v = visible();
    let comments = vec![
        comment(false, "f.rs", "Looks good\nmore"),
        comment(true, "g.rs", "elsewhere"),
        comment(true, "f.rs", ""),
    ];
    let overlays = review_comment_overlays_for_current_file(true, &comments, "f.rs", &v);
    assert_eq!(overlays.len(), 2);
    assert_eq!(overlays[0].display_idx, 1);
    assert_eq!(overlays[0].preview, "Looks good …");
    assert!(!overlays[0].prefer_right);
    assert!(!overlays[0].is_hunk);
    assert_eq!(overlays[1].preview, "(empty)");
    assert!(overlays[1].prefer_right);
    assert!(overlays[1].is_hunk);
    assert_eq!(overlays[1].anchor_key, "hunk|f.rs|2-2|2-2");
    assert!(review_comment_overlays_for_current_file(false, &comments, "f.rs", &v).is_empty());
}

#[test]
fn previews_are_cut_and_trimmed() {
    assert_eq!(comment_preview("  hello  "), "hello");
    let long = "x".repeat(60);
    let p = comment_preview(&format!("{long}\nmore"));
    assert_eq!(p.chars().count(), 50);
    assert!(p.ends_with('…'));
}

#[test]
fn exported_comment_text() {
    let line_comment = comment(false, "f.rs", "Looks good\nmore  \n");
    assert_eq!(
        format_review_comment(&line_comment, 1),
        "=== Comment 1 ===\nFile: f.rs\nSide: old\nLine: 2\nBody:\n  Looks good\n  more"
    );
    let hunk_comment = comment(true, "f.rs", "   ");
    assert_eq!(
        format_review_comment(&hunk_comment, 2),
        "=== Comment 2 ===\nFile: f.rs\nOld: 2\nNew: 2\nBody:\n  (empty)"
    );
}

use oyo::anchors::{format_review_output, ReviewAnchor};

fn made(path: &str, kind: ReviewTargetKind, new_start: Option<usize>, body: &str, id: u64) -> ReviewComment {
    let range = new_start.map(|n| ReviewRange { start: n, end: n });
    ReviewComment {
        id,
        anchor: ReviewAnchor {
            file_index: 0,
            file_path: path.to_string(),
            kind,
            side: if kind == ReviewTargetKind::Line { Some(ReviewSide::New) } else { None },
            old_range: None,
            new_range: range,
            hunk_id: None,
            display_idx_hint: None,
            anchor_key: format!("{path}|{id}"),
        },
        body: body.to_string(),
        created_at: 0,
        updated_at: 0,
    }
}

#[test]
fn review_output_sorts_by_file_kind_and_line() {
    let comments = vec![
        made("b.rs", ReviewTargetKind::Line, Some(5), "B5", 1),
        made("a.rs", ReviewTargetKind::Hunk, Some(1), "AH", 2),
        made("a.rs", ReviewTargetKind::Line, Some(9), "A9", 3),
        made("a.rs", ReviewTargetKind::Line, Some(2), "A2", 4),
        made("a.rs", ReviewTargetKind::Line, Some(2), "A2b", 5),
    ];
    let out = format_review_output(&comments);
    let expected = [
        "=== Comment 1 ===\nFile: a.rs\nSide: new\nLine: 2\nBody:\n  A2",
        "=== Comment 2 ===\nFile: a.rs\nSide: new\nLine: 2\nBody:\n  A2b",
        "=== Comment 3 ===\nFile: a.rs\nSide: new\nLine: 9\nBody:\n  A9",
        "=== Comment 4 ===\nFile: a.rs\nOld: -\nNew: 1\nBody:\n  AH",
        "=== Comment 5 ===\nFile: b.rs\nSide: new\nLine: 5\nBody:\n  B5",
    ]
    .join("\n\n");
    assert_eq!(out, expected);
    assert_eq!(format_review_output(&[]), "");
}
