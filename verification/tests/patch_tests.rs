use oyo::git::FileStatus;
use oyo::multi::FileEntry;
use oyo::patch::{build_unified_hunk_lines, patch_for_hunk, patch_header_path};
use oyo::view::{Change, ChangeKind, ChangeSpan, DiffResult, Hunk};

fn span(kind: ChangeKind, text: &str, new_text: Option<&str>, old_line: Option<usize>, new_line: Option<usize>) -> ChangeSpan {
    ChangeSpan {
        kind,
        text: text.to_string(),
        new_text: new_text.map(|t| t.to_string()),
        old_line,
        new_line,
    }
}

fn sample_diff() -> DiffResult {
    DiffResult {
        changes: vec![
            Change { id: 0, spans: vec![span(ChangeKind::Equal, "a", None, Some(1), Some(1))] },
            Change { id: 1, spans: vec![span(ChangeKind::Delete, "b", None, Some(2), None)] },
            Change { id: 2, spans: vec![span(ChangeKind::Insert, "B", None, None, Some(2))] },
            Change { id: 3, spans: vec![span(ChangeKind::Equal, "c", None, Some(3), Some(3))] },
        ],
        significant_changes: vec![1, 2],
        hunks: vec![Hunk { id: 0, change_ids: vec![1, 2] }],
        insertions: 1,
        deletions: 1,
    }
}

fn entry(path: &str, old_path: Option<&str>, status: FileStatus, binary: bool) -> FileEntry {
    FileEntry {
        path: path.to_string(),
        old_path: old_path.map(|p| p.to_string()),
        old_source_path: None,
        new_source_path: None,
        display_name: path.to_string(),
        status,
        insertions: 0,
        deletions: 0,
        binary,
    }
}

#[test]
fn hunk_patch_has_headers_and_lines() {
    let diff = sample_diff();
    let file = entry("f.txt", None, FileStatus::Modified, false);
    assert_eq!(
        patch_for_hunk(&file, &diff, 0, None).unwrap(),
        "diff --git a/f.txt b/f.txt\n--- a/f.txt\n+++ b/f.txt\n@@ -2,1 +2,1 @@\n-b\n+B"
    );
}

#[test]
fn change_patch_covers_one_change() {
    let diff = sample_diff();
    let file = entry("f.txt", None, FileStatus::Modified, false);
    assert_eq!(
        patch_for_hunk(&file, &diff, 0, Some(2)).unwrap(),
        "diff --git a/f.txt b/f.txt\n--- a/f.txt\n+++ b/f.txt\n@@ -0,0 +2,1 @@\n+B"
    );
}

#[test]
fn patch_headers_follow_file_status() {
    let diff = sample_diff();
    let added = entry("n.txt", None, FileStatus::Added, false);
    let text = patch_for_hunk(&added, &diff, 0, None).unwrap();
    assert!(text.starts_with("diff --git a/n.txt b/n.txt\n--- /dev/null\n+++ b/n.txt\n"));
    let deleted = entry("d.txt", None, FileStatus::Deleted, false);
    let text = patch_for_hunk(&deleted, &diff, 0, None).unwrap();
    assert!(text.starts_with("diff --git a/d.txt b/d.txt\n--- a/d.txt\n+++ /dev/null\n"));
    let renamed = entry("new.txt", Some("old.txt"), FileStatus::Renamed, false);
    let text = patch_for_hunk(&renamed, &diff, 0, None).unwrap();
    assert!(text.starts_with("diff --git a/old.txt b/new.txt\n--- a/old.txt\n+++ b/new.txt\n"));
}

#[test]
fn no_patch_without_a_hunk_or_for_binary_files() {
    let diff = sample_diff();
    let file = entry("f.txt", None, FileStatus::Modified, false);
    assert_eq!(patch_for_hunk(&file, &diff, 5, None), None);
    assert_eq!(patch_for_hunk(&file, &diff, 0, Some(42)), None);
    let binary = entry("f.bin", None, FileStatus::Modified, true);
    assert_eq!(patch_for_hunk(&binary, &diff, 0, None), None);
}

#[test]
fn unified_lines_mark_context_and_edits() {
    let changes = vec![
        Change { id: 0, spans: vec![span(ChangeKind::Equal, "keep", None, Some(4), Some(6))] },
        Change { id: 1, spans: vec![span(ChangeKind::Replace, "x", Some("y"), Some(5), Some(7))] },
    ];
    let (lines, old_start, new_start, old_count, new_count) = build_unified_hunk_lines(&changes);
    assert_eq!(lines, vec![" keep".to_string(), "-x".to_string(), "+y".to_string()]);
    assert_eq!((old_start, new_start, old_count, new_count), (4, 6, 2, 2));
    assert!(Change { id: 9, spans: vec![span(ChangeKind::Equal, "z", None, None, None)] }.has_changes() == false);
}

#[test]
fn header_paths() {
    assert_eq!(patch_header_path(Some("x/y"), "a"), "a/x/y");
    assert_eq!(patch_header_path(None, "b"), "/dev/null");
}
