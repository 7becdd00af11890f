//! Which line an external editor opens at: the line the cursor or the
//! scroll position points to, on the new side when it has a line number
//! there and on the old side otherwise.

use vstd::prelude::*;
use crate::hunks::{pane_lines, unified_pane, Pane};
use crate::types::ViewMode;
use crate::view::{lines_view, LineKind, ViewLine};
use crate::view_metrics::{first_flagged, first_flagged_index, is_fold_line, is_fold_line_spec};

verus! {

/// The side of the diff an editor opens.
#[derive(Debug, Clone, Copy, PartialEq, Eq, Structural)]
pub enum EditorSide {
    Old,
    New,
}

/// A line for the editor to open at: its side and its line number.
#[derive(Debug, Clone, Copy, PartialEq, Eq, Structural)]
pub struct EditorFocus {
    pub side: EditorSide,
    pub line: usize,
}

/// The focus a line gives: its new line number when it has a positive one,
/// else its old line number when positive.
pub open spec fn line_focus(l: ViewLine) -> Option<EditorFocus> {
    match l.new_line {
        Some(n) if n > 0 => Some(EditorFocus { side: EditorSide::New, line: n }),
        _ => match l.old_line {
            Some(n) if n > 0 => Some(EditorFocus { side: EditorSide::Old, line: n }),
            _ => None,
        },
    }
}

/// The focus a line gives (see [`line_focus`]).
pub fn editor_focus_for_line(line: &ViewLine) -> (r: Option<EditorFocus>)
    ensures
        r == line_focus(*line),
{
    if let Some(n) = line.new_line {
        if n > 0 {
            return Some(EditorFocus { side: EditorSide::New, line: n });
        }
    }
    match line.old_line {
        Some(n) => if n > 0 {
            Some(EditorFocus { side: EditorSide::Old, line: n })
        } else {
            None
        },
        None => None,
    }
}

/// The focus of the first primary-active (`primary`) or active line, if
/// that line gives one.
pub open spec fn flagged_focus(view: Seq<ViewLine>, primary: bool) -> Option<EditorFocus> {
    match first_flagged(lines_view(view), primary) {
        Some(k) => line_focus(view[k as int]),
        None => None,
    }
}

/// The focus of the first primary-active (or active) line (see
/// [`flagged_focus`]).
fn flagged_editor_focus(view: &[ViewLine], primary: bool) -> (r: Option<EditorFocus>)
    ensures
        r == flagged_focus(view@, primary),
{
    match first_flagged_index(view, primary) {
        Some(k) => editor_focus_for_line(&view[k]),
        None => None,
    }
}

/// The focus of the first primary-active line (see [`flagged_focus`]).
pub fn primary_editor_focus(view: &[ViewLine]) -> (r: Option<EditorFocus>)
    ensures
        r == flagged_focus(view@, true),
{
    flagged_editor_focus(view, true)
}

/// The focus of the first active line (see [`flagged_focus`]).
pub fn active_editor_focus(view: &[ViewLine]) -> (r: Option<EditorFocus>)
    ensures
        r == flagged_focus(view@, false),
{
    flagged_editor_focus(view, false)
}

/// The focus of the first row at or after row `target` that gives one.
pub open spec fn focus_from(rows: Seq<ViewLine>, target: usize) -> Option<EditorFocus>
    decreases rows.len(),
{
    if rows.len() == 0 {
        None
    } else {
        match focus_from(rows.drop_last(), target) {
            Some(f) => Some(f),
            None => if rows.len() - 1 >= target {
                line_focus(rows.last())
            } else {
                None
            },
        }
    }
}

proof fn lemma_focus_from_prefix(rows: Seq<ViewLine>, target: usize, n: int)
    requires
        0 <= n <= rows.len(),
        focus_from(rows.take(n), target) is Some,
    ensures
        focus_from(rows, target) == focus_from(rows.take(n), target),
    decreases rows.len() - n,
{
    if n < rows.len() {
        assert(rows.take(n + 1).drop_last() =~= rows.take(n));
        lemma_focus_from_prefix(rows, target, n + 1);
    } else {
        assert(rows.take(n) =~= rows);
    }
}

proof fn lemma_pane_prefix_focus(view: Seq<ViewLine>, pane: Pane, target: usize, i: int)
    requires
        0 <= i < view.len(),
        focus_from(pane_lines(view.take(i + 1), pane), target) is Some,
    ensures
        focus_from(pane_lines(view, pane), target) == focus_from(pane_lines(view.take(i + 1), pane), target),
    decreases view.len() - i,
{
    if i + 1 < view.len() {
        assert(view.take(i + 2).drop_last() =~= view.take(i + 1));
        let rows = pane_lines(view.take(i + 1), pane);
        let rows2 = pane_lines(view.take(i + 2), pane);
        if rows2 != rows {
            assert(rows2.drop_last() =~= rows);
        }
        assert(focus_from(rows2, target) == focus_from(rows, target));
        lemma_pane_prefix_focus(view, pane, target, i + 1);
    } else {
        assert(view.take(i + 1) =~= view);
    }
}

/// The focus at the scroll position outside the split view: the first row
/// of the pane at or after `target` that gives one (see [`focus_from`]).
fn pane_focus(view: &[ViewLine], evolution: bool, target: usize) -> (r: Option<EditorFocus>)
    ensures
        r == focus_from(pane_lines(view@, Pane::Unified { evolution }), target),
{
    let ghost pane = Pane::Unified { evolution };
    let mut display_idx: usize = 0;
    let mut i: usize = 0;
    assert(view@.take(0) =~= Seq::<ViewLine>::empty());
    while i < view.len()
        invariant
            0 <= i <= view.len(),
            pane == (Pane::Unified { evolution }),
            display_idx <= i,
            display_idx == pane_lines(view@.take(i as int), pane).len(),
            focus_from(pane_lines(view@.take(i as int), pane), target) is None,
        decreases view.len() - i,
    {
        let ghost rows = pane_lines(view@.take(i as int), pane);
        assert(view@.take(i + 1).drop_last() =~= view@.take(i as int));
        assert(view@.take(i + 1).last() == view@[i as int]);
        let line = &view[i];
        let shown = !evolution || !matches!(line.kind, LineKind::Deleted | LineKind::PendingDelete);
        if shown {
            let ghost rows2 = pane_lines(view@.take(i + 1), pane);
            assert(rows2 == rows.push(*line));
            assert(rows2.drop_last() =~= rows);
            if display_idx >= target {
                if let Some(f) = editor_focus_for_line(line) {
                    proof {
                        lemma_pane_prefix_focus(view@, pane, target, i as int);
                    }
                    return Some(f);
                }
            }
            display_idx = display_idx + 1;
        } else {
            assert(pane_lines(view@.take(i + 1), pane) == rows);
        }
        i = i + 1;
    }
    assert(view@.take(i as int) =~= view@);
    None
}

/// Where the split view's scan for a focus stands: the rows seen in the old
/// and new panes and the focus found in each.
pub type SplitScan = (int, int, Option<EditorFocus>, Option<EditorFocus>);

/// The scan of the split view for the focus at row `target`: each pane
/// takes the first of its rows at or after `target` that gives one (the old
/// pane only an old line number; the new pane a new one, else an old one);
/// the scan stops once the new pane has one.
pub open spec fn split_scan(view: Seq<ViewLine>, align: bool, target: usize) -> SplitScan
    decreases view.len(),
{
    if view.len() == 0 {
        (0, 0, None, None)
    } else {
        let p = split_scan(view.drop_last(), align, target);
        if p.3 is Some {
            p
        } else {
            let l = view.last();
            let fold = is_fold_line_spec(l@);
            let old_present = l.old_line is Some || fold;
            let new_present = (l.new_line is Some && !(l.kind == LineKind::Deleted || l.kind
                == LineKind::PendingDelete)) || fold;
            let in_old = old_present || (align && new_present);
            let in_new = new_present || (align && old_present);
            let om = if in_old && p.0 >= target && p.2 is None {
                match l.old_line {
                    Some(n) if n > 0 => Some(EditorFocus { side: EditorSide::Old, line: n }),
                    _ => None,
                }
            } else {
                p.2
            };
            let nm = if in_new && p.1 >= target {
                match l.new_line {
                    Some(n) if n > 0 => Some(EditorFocus { side: EditorSide::New, line: n }),
                    _ => line_focus(l),
                }
            } else {
                p.3
            };
            (
                if in_old {
                    p.0 + 1
                } else {
                    p.0
                },
                if in_new {
                    p.1 + 1
                } else {
                    p.1
                },
                om,
                nm,
            )
        }
    }
}

/// The focus the split view gives at row `target`: the new pane's, else the
/// old pane's (see [`split_scan`]).
pub open spec fn split_focus_spec(view: Seq<ViewLine>, align: bool, target: usize) -> Option<EditorFocus> {
    let s = split_scan(view, align, target);
    match s.3 {
        Some(f) => Some(f),
        None => s.2,
    }
}

proof fn lemma_split_scan_frozen(view: Seq<ViewLine>, align: bool, target: usize, n: int)
    requires
        0 <= n <= view.len(),
        split_scan(view.take(n), align, target).3 is Some,
    ensures
        split_scan(view, align, target) == split_scan(view.take(n), align, target),
    decreases view.len() - n,
{
    if n < view.len() {
        assert(view.take(n + 1).drop_last() =~= view.take(n));
        lemma_split_scan_frozen(view, align, target, n + 1);
    } else {
        assert(view.take(n) =~= view);
    }
}

/// The focus the split view gives at row `target` (see
/// [`split_focus_spec`]).
pub fn visible_split_editor_focus(view: &[ViewLine], split_align_lines: bool, target: usize) -> (r: Option<
    EditorFocus,
>)
    ensures
        r == split_focus_spec(view@, split_align_lines, target),
{
    let mut old_idx: usize = 0;
    let mut new_idx: usize = 0;
    let mut old_match: Option<EditorFocus> = None;
    let mut new_match: Option<EditorFocus> = None;
    let mut i: usize = 0;
    assert(view@.take(0) =~= Seq::<ViewLine>::empty());
    while i < view.len()
        invariant
            0 <= i <= view.len(),
            old_idx <= i,
            new_idx <= i,
            new_match is None,
            split_scan(view@.take(i as int), split_align_lines, target) == (
                old_idx as int,
                new_idx as int,
                old_match,
                new_match,
            ),
        decreases view.len() - i,
    {
        assert(view@.take(i + 1).drop_last() =~= view@.take(i as int));
        assert(view@.take(i + 1).last() == view@[i as int]);
        let line = &view[i];
        let fold_line = is_fold_line(line);
        let old_present = line.old_line.is_some() || fold_line;
        let new_present = (line.new_line.is_some() && !matches!(line.kind, LineKind::Deleted | LineKind::PendingDelete))
            || fold_line;
        if old_present || (split_align_lines && new_present) {
            if old_idx >= target && old_match.is_none() {
                old_match = match line.old_line {
                    Some(n) => if n > 0 {
                        Some(EditorFocus { side: EditorSide::Old, line: n })
                    } else {
                        None
                    },
                    None => None,
                };
            }
            old_idx = old_idx + 1;
        }
        if new_present || (split_align_lines && old_present) {
            if new_idx >= target {
                let direct = match line.new_line {
                    Some(n) => if n > 0 {
                        Some(EditorFocus { side: EditorSide::New, line: n })
                    } else {
                        None
                    },
                    None => None,
                };
                new_match = match direct {
                    Some(f) => Some(f),
                    None => editor_focus_for_line(line),
                };
            }
            new_idx = new_idx + 1;
        }
        if let Some(f) = new_match {
            proof {
                lemma_split_scan_frozen(view@, split_align_lines, target, i + 1);
            }
            return Some(f);
        }
        i = i + 1;
    }
    assert(view@.take(i as int) =~= view@);
    old_match
}

/// The focus at the scroll position `target`: in the split view as
/// [`split_focus_spec`] says, in the evolution view among the rows it
/// shows, elsewhere among all lines.
pub open spec fn visible_focus_spec(view: Seq<ViewLine>, view_mode: ViewMode, align: bool, target: usize) -> Option<
    EditorFocus,
> {
    if view_mode == ViewMode::Split {
        split_focus_spec(view, align, target)
    } else {
        focus_from(pane_lines(view, unified_pane(view_mode)), target)
    }
}

/// The focus at the scroll position (see [`visible_focus_spec`]).
pub fn visible_editor_focus(view: &[ViewLine], view_mode: ViewMode, split_align_lines: bool, target: usize) -> (r:
    Option<EditorFocus>)
    ensures
        r == visible_focus_spec(view@, view_mode, split_align_lines, target),
{
    match view_mode {
        ViewMode::Split => visible_split_editor_focus(view, split_align_lines, target),
        _ => pane_focus(view, matches!(view_mode, ViewMode::Evolution), target),
    }
}

/// The first of two focuses that is there.
pub open spec fn or_focus(a: Option<EditorFocus>, b: Option<EditorFocus>) -> Option<EditorFocus> {
    match a {
        Some(f) => Some(f),
        None => b,
    }
}

/// Where the editor opens: while stepping, at the primary-active line, else
/// the active line, else the scroll position; without stepping, when the
/// cursor was moved by hunks, at the primary-active line, else the scroll
/// position; otherwise at the scroll position, else the primary-active
/// line.
pub open spec fn current_focus_spec(
    view: Seq<ViewLine>,
    stepping: bool,
    hunk_cursor: bool,
    view_mode: ViewMode,
    align: bool,
    target: usize,
) -> Option<EditorFocus> {
    let primary = flagged_focus(view, true);
    let visible = visible_focus_spec(view, view_mode, align, target);
    if stepping {
        or_focus(primary, or_focus(flagged_focus(view, false), visible))
    } else if hunk_cursor {
        or_focus(primary, visible)
    } else {
        or_focus(visible, primary)
    }
}

/// Where the editor opens (see [`current_focus_spec`]); `target` is the
/// scroll position within the rendered view.
pub fn current_editor_focus(
    view: &[ViewLine],
    stepping: bool,
    hunk_cursor: bool,
    view_mode: ViewMode,
    split_align_lines: bool,
    target: usize,
) -> (r: Option<EditorFocus>)
    ensures
        r == current_focus_spec(view@, stepping, hunk_cursor, view_mode, split_align_lines, target),
{
    if stepping {
        if let Some(f) = primary_editor_focus(view) {
            return Some(f);
        }
        if let Some(f) = active_editor_focus(view) {
            return Some(f);
        }
        return visible_editor_focus(view, view_mode, split_align_lines, target);
    }
    if hunk_cursor {
        match primary_editor_focus(view) {
            Some(f) => Some(f),
            None => visible_editor_focus(view, view_mode, split_align_lines, target),
        }
    } else {
        match visible_editor_focus(view, view_mode, split_align_lines, target) {
            Some(f) => Some(f),
            None => primary_editor_focus(view),
        }
    }
}

} // verus!
