use oyo::hunks::{HunkBounds, HunkStart};
use oyo::navigation::{
    hunk_step_progress, no_step_entry, wrap_to_file_hunk, number_to_index, step_entry, NoStepEntry, StepEntry,
    hunk_hint_overflow, last_step_hint, next_file_wrapped, prev_file_wrapped, toggle_view_mode,
    toggle_view_mode_reverse,
};
use oyo::types::ViewMode;

#[test]
fn view_mode_cycles_depend_on_stepping_and_blame() {
    assert_eq!(toggle_view_mode(ViewMode::UnifiedPane, false, false), (ViewMode::Split, false));
    assert_eq!(toggle_view_mode(ViewMode::Split, false, false), (ViewMode::UnifiedPane, false));
    assert_eq!(toggle_view_mode(ViewMode::Split, false, true), (ViewMode::Blame, false));
    assert_eq!(toggle_view_mode(ViewMode::Split, true, false), (ViewMode::Evolution, true));
    assert_eq!(toggle_view_mode(ViewMode::Evolution, true, true), (ViewMode::Blame, false));
    assert_eq!(toggle_view_mode(ViewMode::Blame, true, false), (ViewMode::UnifiedPane, false));
    assert_eq!(toggle_view_mode_reverse(ViewMode::UnifiedPane, false, true), (ViewMode::Blame, false));
    assert_eq!(toggle_view_mode_reverse(ViewMode::UnifiedPane, true, false), (ViewMode::Evolution, true));
    assert_eq!(toggle_view_mode_reverse(ViewMode::Evolution, false, false), (ViewMode::UnifiedPane, false));
}

#[test]
fn view_mode_toggle_round_trips() {
    for stepping in [false, true] {
        for blame in [false, true] {
            for mode in [ViewMode::UnifiedPane, ViewMode::Split, ViewMode::Evolution, ViewMode::Blame] {
                let in_cycle = (stepping || mode != ViewMode::Evolution) && (blame || mode != ViewMode::Blame);
                if in_cycle {
                    let (n, _) = toggle_view_mode(mode, stepping, blame);
                    assert_eq!(toggle_view_mode_reverse(n, stepping, blame).0, mode);
                }
            }
        }
    }
}

#[test]
fn files_wrap_around() {
    assert_eq!(next_file_wrapped(None, 3, 1), Some(2));
    assert_eq!(next_file_wrapped(None, 3, 2), Some(0));
    assert_eq!(next_file_wrapped(None, 1, 0), None);
    assert_eq!(next_file_wrapped(None, 0, 0), None);
    assert_eq!(prev_file_wrapped(None, 3, 0), Some((2, true)));
    assert_eq!(prev_file_wrapped(None, 1, 0), Some((0, false)));
    assert_eq!(prev_file_wrapped(None, 3, 2), Some((1, true)));
    let filtered = [1usize, 4, 6];
    assert_eq!(next_file_wrapped(Some(&filtered), 8, 4), Some(6));
    assert_eq!(next_file_wrapped(Some(&filtered), 8, 6), Some(1));
    assert_eq!(next_file_wrapped(Some(&filtered), 8, 3), Some(4));
    assert_eq!(prev_file_wrapped(Some(&filtered), 8, 1), Some((6, true)));
    assert_eq!(prev_file_wrapped(Some(&[5usize]), 8, 5), None);
    assert_eq!(next_file_wrapped(Some(&[]), 8, 5), None);
}

#[test]
fn hints() {
    let b = HunkBounds {
        start: HunkStart { idx: 3, change_id: None },
        end: HunkStart { idx: 20, change_id: None },
    };
    assert_eq!(hunk_hint_overflow(b, 5, 10), (true, true));
    assert_eq!(hunk_hint_overflow(b, 3, 18), (false, false));
    assert!(last_step_hint(true, 5, 3));
    assert!(!last_step_hint(true, 5, 4));
    assert!(!last_step_hint(false, 5, 3));
    assert!(!last_step_hint(true, 1, 0));
}

fn entry(visited: bool, current_step: usize, total_steps: usize) -> StepEntry {
    StepEntry {
        visited,
        is_large: false,
        current_step,
        total_steps,
        auto_step_blank_files: true,
        blank_at_start: false,
        auto_step_on_enter: true,
        view_mode: ViewMode::UnifiedPane,
    }
}

#[test]
fn entering_a_file_while_stepping() {
    assert_eq!(step_entry(entry(true, 0, 5)), (false, false));
    assert_eq!(step_entry(entry(false, 0, 5)), (true, true));
    assert_eq!(step_entry(entry(false, 2, 5)), (true, false));
    assert_eq!(step_entry(entry(false, 0, 1)), (true, false));
    let mut e = entry(false, 0, 5);
    e.is_large = true;
    assert_eq!(step_entry(e), (true, false));
    let mut e = entry(false, 0, 5);
    e.view_mode = ViewMode::Evolution;
    assert_eq!(step_entry(e), (true, false));
    e.blank_at_start = true;
    assert_eq!(step_entry(e), (true, true));
}

#[test]
fn entering_a_file_without_stepping() {
    assert_eq!(no_step_entry(true, false), NoStepEntry::FirstHunk);
    assert_eq!(no_step_entry(true, true), NoStepEntry::CursorAtScroll);
    assert_eq!(no_step_entry(false, false), NoStepEntry::CursorAtScroll);
}

#[test]
fn typed_numbers_are_brought_in_range() {
    assert_eq!(number_to_index(3, 5), Some(2));
    assert_eq!(number_to_index(0, 5), Some(0));
    assert_eq!(number_to_index(9, 5), Some(4));
    assert_eq!(number_to_index(1, 0), None);
}

#[test]
fn progress_within_a_hunk() {
    assert_eq!(hunk_step_progress(Some((4, 3)), 5), Some((1, 3)));
    assert_eq!(hunk_step_progress(Some((4, 3)), 2), Some((0, 3)));
    assert_eq!(hunk_step_progress(Some((4, 3)), 20), Some((3, 3)));
    assert_eq!(hunk_step_progress(Some((4, 0)), 5), None);
    assert_eq!(hunk_step_progress(None, 5), None);
}

#[test]
fn hunk_motion_wraps_into_neighbouring_files() {
    let files = [0, 1, 2, 3];
    let totals = [2, 0, 5, 3];
    // Forward from file 0: file 1 has no hunks, file 2 has; land on its first.
    assert_eq!(wrap_to_file_hunk(&files, &totals, 0, true), (Some(2), Some(0)));
    // Backward from file 2: file 1 is skipped, file 0's last hunk.
    assert_eq!(wrap_to_file_hunk(&files, &totals, 2, false), (Some(0), Some(1)));
    // Backward from file 0 wraps to file 3.
    assert_eq!(wrap_to_file_hunk(&files, &totals, 0, false), (Some(3), Some(2)));
    // Nothing else has hunks: every other file was selected on the way.
    assert_eq!(wrap_to_file_hunk(&files, &[1, 0, 0, 0], 0, true), (Some(3), None));
    assert_eq!(wrap_to_file_hunk(&[], &totals, 0, true), (None, None));
    // Within a filter.
    assert_eq!(wrap_to_file_hunk(&[1, 3], &totals, 1, true), (Some(3), Some(0)));
}
