use oyo::diff::{
    build_hunk_change_index_map, context_only_diff, diff_lines, pending_insert_only_in_current_hunk,
    DiffNavigator,
};
use oyo::hunks::{
    change_visible_in_evolution, collect_conflict_steps, compute_hunk_bounds_split_fast,
    compute_hunk_bounds_unified_fast, compute_hunk_starts_split_fast, compute_hunk_starts_unified_fast,
    HunkBounds, HunkStart,
};
use oyo::multi::{DiffSettings, MultiFileDiff};
use oyo::types::ViewMode;
use oyo::view::{Change, ChangeKind, ChangeSpan, DiffResult, Hunk};

fn old_side(d: &oyo::view::DiffResult) -> Vec<String> {
    d.changes
        .iter()
        .filter(|c| c.spans[0].kind != ChangeKind::Insert)
        .map(|c| c.spans[0].text.clone())
        .collect()
}

fn new_side(d: &oyo::view::DiffResult) -> Vec<String> {
    d.changes
        .iter()
        .filter(|c| c.spans[0].kind != ChangeKind::Delete)
        .map(|c| c.spans[0].text.clone())
        .collect()
}

#[test]
fn line_diff_reconstructs_both_texts() {
    let old = "a\nb\nc\nd";
    let new = "a\nx\ny\nd";
    let d = diff_lines(old, new);
    assert_eq!(old_side(&d), vec!["a", "b", "c", "d"]);
    assert_eq!(new_side(&d), vec!["a", "x", "y", "d"]);
    assert_eq!(d.insertions, 2);
    assert_eq!(d.deletions, 2);
    assert_eq!(d.hunks.len(), 1);
    assert_eq!(d.significant_changes, vec![1, 2, 3, 4]);
    assert_eq!(d.changes[5].spans[0].old_line, Some(4));
    assert_eq!(d.changes[5].spans[0].new_line, Some(4));
}

#[test]
fn equal_texts_have_no_changes() {
    let d = MultiFileDiff::compute_diff("same\ntext", "same\ntext", DiffSettings::default());
    assert_eq!(d.insertions, 0);
    assert_eq!(d.deletions, 0);
    assert!(d.hunks.is_empty());
    assert_eq!(d.changes.len(), 2);
}

#[test]
fn placeholder_diff_shows_the_text() {
    let d = context_only_diff("one\ntwo");
    assert_eq!(old_side(&d), vec!["one", "two"]);
    assert_eq!(new_side(&d), vec!["one", "two"]);
    assert_eq!(d.insertions, 0);
}

#[test]
fn hunk_map_assigns_changed_lines() {
    let d = diff_lines("a\nb\nc", "a\nB\nc");
    let nav = DiffNavigator::new(d, "a\nb\nc".to_string(), "a\nB\nc".to_string(), false);
    let map = build_hunk_change_index_map(&nav);
    assert_eq!(map, vec![None, Some(0), Some(0), None]);
    assert_eq!(nav.change_index_for(2), Some(2));
    assert_eq!(nav.change_index_for(9), None);
    assert_eq!(ViewMode::UnifiedPane.next(), ViewMode::Split);
    assert_eq!(ViewMode::UnifiedPane.prev(), ViewMode::Blame);
}

fn one_span(id: usize, kind: ChangeKind) -> Change {
    Change {
        id,
        spans: vec![ChangeSpan { kind, text: format!("l{}", id), new_text: None, old_line: None, new_line: None }],
    }
}

fn insert_nav() -> DiffNavigator {
    let diff = DiffResult {
        changes: vec![
            one_span(0, ChangeKind::Insert),
            one_span(1, ChangeKind::Insert),
            one_span(2, ChangeKind::Insert),
            one_span(3, ChangeKind::Delete),
            one_span(4, ChangeKind::Insert),
        ],
        significant_changes: vec![0, 1, 2, 3, 4],
        hunks: vec![],
        insertions: 4,
        deletions: 1,
    };
    DiffNavigator::new(diff, String::new(), String::new(), false)
}

#[test]
fn pending_inserts_count_up_to_first_other_change() {
    let nav = insert_nav();
    let hunk = Hunk { id: 0, change_ids: vec![0, 1, 9, 2, 3, 4] };
    // After change 0: changes 1 and 2 (9 names no change), stop at the deletion.
    assert_eq!(pending_insert_only_in_current_hunk(&nav, Some(&hunk), Some(0), &[]), 2);
    // Applied ones do not count.
    assert_eq!(pending_insert_only_in_current_hunk(&nav, Some(&hunk), Some(0), &[2]), 1);
    // The cursor's change must be insert-only and in the hunk.
    assert_eq!(pending_insert_only_in_current_hunk(&nav, Some(&hunk), Some(3), &[]), 0);
    assert_eq!(pending_insert_only_in_current_hunk(&nav, Some(&hunk), Some(7), &[]), 0);
    assert_eq!(pending_insert_only_in_current_hunk(&nav, Some(&hunk), None, &[]), 0);
    assert_eq!(pending_insert_only_in_current_hunk(&nav, None, Some(0), &[]), 0);
}

fn text_change(id: usize, kind: ChangeKind, text: &str) -> Change {
    Change {
        id,
        spans: vec![ChangeSpan { kind, text: text.to_string(), new_text: None, old_line: None, new_line: None }],
    }
}

#[test]
fn conflict_steps_are_numbered_from_one() {
    let diff = DiffResult {
        changes: vec![
            text_change(0, ChangeKind::Equal, "plain"),
            text_change(1, ChangeKind::Insert, "<<<<<<< HEAD"),
            text_change(2, ChangeKind::Insert, "ours"),
            text_change(3, ChangeKind::Delete, "======="),
        ],
        significant_changes: vec![1, 2, 8, 3],
        hunks: vec![],
        insertions: 2,
        deletions: 1,
    };
    let nav = DiffNavigator::new(diff, String::new(), String::new(), false);
    assert_eq!(collect_conflict_steps(&nav), vec![1, 4]);
}

fn hs(idx: usize, change_id: usize) -> HunkStart {
    HunkStart { idx, change_id: Some(change_id) }
}

#[test]
fn fast_hunk_positions_follow_the_changes() {
    let d = diff_lines("a\nb\nc", "a\nB\nc");
    let nav = DiffNavigator::new(d, "a\nb\nc".to_string(), "a\nB\nc".to_string(), false);
    let ids: Vec<usize> = nav.diff().changes.iter().map(|c| c.id).collect();
    assert_eq!(ids, vec![0, 1, 2, 3]);
    assert_eq!(
        compute_hunk_bounds_unified_fast(&nav, ViewMode::UnifiedPane, 1),
        vec![Some(HunkBounds { start: hs(1, 1), end: hs(2, 2) })]
    );
    assert_eq!(compute_hunk_starts_unified_fast(&nav, ViewMode::UnifiedPane, 1), vec![Some(hs(1, 1))]);
    // The deletion has no row in the evolution view.
    assert_eq!(
        compute_hunk_bounds_unified_fast(&nav, ViewMode::Evolution, 1),
        vec![Some(HunkBounds { start: hs(1, 2), end: hs(1, 2) })]
    );
    let (old, new) = compute_hunk_bounds_split_fast(&nav, false, 1);
    assert_eq!(old, vec![Some(HunkBounds { start: hs(1, 1), end: hs(1, 1) })]);
    assert_eq!(new, vec![Some(HunkBounds { start: hs(1, 2), end: hs(1, 2) })]);
    // With aligned lines both panes get a row for every change.
    let (old, new) = compute_hunk_bounds_split_fast(&nav, true, 1);
    assert_eq!(old, vec![Some(HunkBounds { start: hs(1, 1), end: hs(2, 2) })]);
    assert_eq!(new, vec![Some(HunkBounds { start: hs(1, 1), end: hs(2, 2) })]);
    let (old, new) = compute_hunk_starts_split_fast(&nav, false, 2);
    assert_eq!(old, vec![Some(hs(1, 1)), None]);
    assert_eq!(new, vec![Some(hs(1, 2)), None]);
}

#[test]
fn evolution_hides_pure_deletions() {
    assert!(!change_visible_in_evolution(&one_span(0, ChangeKind::Delete)));
    assert!(change_visible_in_evolution(&one_span(0, ChangeKind::Insert)));
    assert!(change_visible_in_evolution(&one_span(0, ChangeKind::Replace)));
    assert!(change_visible_in_evolution(&one_span(0, ChangeKind::Equal)));
}

#[test]
fn large_diffs_keep_three_lines_of_context() {
    let old: Vec<String> = (0..20).map(|i| format!("l{}", i)).collect();
    let mut new = old.clone();
    new[10] = "changed".to_string();
    let (old, new) = (old.join("\n"), new.join("\n"));
    let full = MultiFileDiff::compute_diff(&old, &new, DiffSettings::default());
    assert_eq!(full.changes.len(), 21);
    let mut small = DiffSettings::default();
    MultiFileDiff::set_full_context_max_bytes(&mut small, 0);
    let trimmed = MultiFileDiff::compute_diff(&old, &new, small);
    // Lines 7..=9, the deletion, the insertion, and lines 11..=13.
    let texts: Vec<&str> = trimmed.changes.iter().map(|c| c.spans[0].text.as_str()).collect();
    assert_eq!(texts, vec!["l7", "l8", "l9", "l10", "changed", "l11", "l12", "l13"]);
    assert_eq!((trimmed.insertions, trimmed.deletions), (full.insertions, full.deletions));
    let mut one = DiffSettings::default();
    MultiFileDiff::set_full_context_max_bytes(&mut one, 1);
    assert_eq!(MultiFileDiff::compute_diff(&old, &new, one).changes.len(), trimmed.changes.len());
    // A text without changes keeps all its lines.
    assert_eq!(MultiFileDiff::compute_diff(&old, &old, small).changes.len(), 20);
}

#[test]
fn separate_edits_make_separate_hunks() {
    let old: Vec<String> = (0..600).map(|i| format!("line {}", i)).collect();
    let mut new = old.clone();
    new[50] = "changed early".to_string();
    new[450] = "changed late".to_string();
    let d = MultiFileDiff::compute_diff(&old.join("\n"), &new.join("\n"), DiffSettings::default());
    assert_eq!(d.hunks.len(), 2);
    assert_eq!(d.insertions, 2);
    assert_eq!(d.deletions, 2);
    assert_eq!(d.significant_changes, vec![50, 51, 451, 452]);
    assert_eq!(d.hunks[0].change_ids, vec![50, 51]);
    assert_eq!(d.hunks[1].change_ids, vec![451, 452]);
    assert_eq!(d.changes.len(), 602);
}

#[test]
fn line_diff_keeps_lines_common_to_both_sides() {
    let d = diff_lines("a\nb\nc\nd\ne", "a\nc\nx\nd\ne");
    assert_eq!(old_side(&d), vec!["a", "b", "c", "d", "e"]);
    assert_eq!(new_side(&d), vec!["a", "c", "x", "d", "e"]);
    assert_eq!((d.insertions, d.deletions), (1, 1));
    assert_eq!(d.hunks.len(), 2);
    assert_eq!(d.changes[1].spans[0].kind, ChangeKind::Delete);
    assert_eq!(d.changes[2].spans[0].kind, ChangeKind::Equal);
    assert_eq!(d.changes[2].spans[0].old_line, Some(3));
    assert_eq!(d.changes[2].spans[0].new_line, Some(2));
    assert_eq!(d.changes[3].spans[0].kind, ChangeKind::Insert);
}
