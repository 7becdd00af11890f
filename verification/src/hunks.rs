//! Where hunks and conflict markers sit on screen: for each hunk the display
//! rows of its first and last lines in each pane, and the rows of the lines
//! that start a merge-conflict marker.

use vstd::prelude::*;
use crate::types::{AnimationPhase, ViewMode};
use crate::view::{Change, ChangeKind, LineKind, ViewLine};
use crate::view_metrics::{
    change_has_conflict_marker, change_text, is_conflict_marker, is_conflict_marker_text, is_fold_line,
    is_fold_line_spec, text_has_marker, ChangeTextKind,
};
use crate::diff::{assign_hunks, build_hunk_change_index_map, change_by_id, hunk_pairs, ChangeModel, DiffNavigator};

verus! {

/// A display row of a hunk line, with the change it shows.
#[derive(Debug, Clone, Copy, PartialEq, Eq, Structural)]
pub struct HunkStart {
    pub idx: usize,
    pub change_id: Option<usize>,
}

/// The first and last display rows of a hunk.
#[derive(Debug, Clone, Copy, PartialEq, Eq, Structural)]
pub struct HunkBounds {
    pub start: HunkStart,
    pub end: HunkStart,
}

/// A line that starts a merge-conflict marker: its display row and change.
#[derive(Debug, Clone, Copy, PartialEq, Eq, Structural)]
pub struct ConflictMarker {
    pub display_idx: usize,
    pub change_id: usize,
}

/// The rows of one pane.
#[derive(Debug, Clone, Copy, PartialEq, Eq, Structural)]
pub enum Pane {
    /// The single pane of the unified, evolution and blame views; in the
    /// evolution view deleted lines have no row.
    Unified { evolution: bool },
    /// The old pane of the split view: lines of the old text and fold lines.
    Old,
    /// The new pane of the split view: lines of the new text and fold lines.
    New,
}

/// Whether a line has a row in the pane.
pub open spec fn in_pane(l: ViewLine, pane: Pane) -> bool {
    match pane {
        Pane::Unified { evolution } => !evolution || !(l.kind == LineKind::Deleted || l.kind
            == LineKind::PendingDelete),
        Pane::Old => l.old_line is Some || is_fold_line_spec(l@),
        Pane::New => l.new_line is Some || is_fold_line_spec(l@),
    }
}

/// The lines that have a row in the pane, in order.
pub open spec fn pane_lines(view: Seq<ViewLine>, pane: Pane) -> Seq<ViewLine>
    decreases view.len(),
{
    if view.len() == 0 {
        Seq::empty()
    } else if in_pane(view.last(), pane) {
        pane_lines(view.drop_last(), pane).push(view.last())
    } else {
        pane_lines(view.drop_last(), pane)
    }
}

/// A row as the hunk positions see it: the hunk of the row's line, if any,
/// and the change the line shows.
pub type RowKey = (Option<usize>, usize);

/// The hunk and change of a line.
pub open spec fn row_key(l: ViewLine) -> RowKey {
    (l.hunk_index, l.change_id)
}

/// The hunks and changes of the rows of a pane, in order.
pub open spec fn pane_keys(view: Seq<ViewLine>, pane: Pane) -> Seq<RowKey> {
    pane_lines(view, pane).map_values(|l: ViewLine| row_key(l))
}

/// The first row of hunk `h` in a pane.
pub open spec fn first_in_hunk(rows: Seq<RowKey>, h: int) -> Option<int>
    decreases rows.len(),
{
    if rows.len() == 0 {
        None
    } else {
        match first_in_hunk(rows.drop_last(), h) {
            Some(k) => Some(k),
            None => if rows.last().0 == Some(h as usize) {
                Some(rows.len() - 1)
            } else {
                None
            },
        }
    }
}

/// The last row of hunk `h` in a pane.
pub open spec fn last_in_hunk(rows: Seq<RowKey>, h: int) -> Option<int>
    decreases rows.len(),
{
    if rows.len() == 0 {
        None
    } else if rows.last().0 == Some(h as usize) {
        Some(rows.len() - 1)
    } else {
        last_in_hunk(rows.drop_last(), h)
    }
}

/// Row `k` of a pane as a hunk position.
pub open spec fn row_start(rows: Seq<RowKey>, k: int) -> HunkStart {
    HunkStart { idx: k as usize, change_id: Some(rows[k].1) }
}

/// For each of the `total` hunks, its first and last rows in the pane.
pub open spec fn hunk_bounds_spec(rows: Seq<RowKey>, total: nat) -> Seq<Option<HunkBounds>> {
    Seq::new(
        total,
        |h: int|
            match (first_in_hunk(rows, h), last_in_hunk(rows, h)) {
                (Some(a), Some(b)) => Some(HunkBounds { start: row_start(rows, a), end: row_start(rows, b) }),
                _ => None,
            },
    )
}

/// For each of the `total` hunks, its first row in the pane.
pub open spec fn hunk_starts_spec(rows: Seq<RowKey>, total: nat) -> Seq<Option<HunkStart>> {
    Seq::new(
        total,
        |h: int|
            match first_in_hunk(rows, h) {
                Some(a) => Some(row_start(rows, a)),
                None => None,
            },
    )
}

proof fn lemma_first_last(rows: Seq<RowKey>, h: int)
    ensures
        first_in_hunk(rows, h) is Some <==> last_in_hunk(rows, h) is Some,
        match first_in_hunk(rows, h) {
            Some(a) => 0 <= a < rows.len(),
            None => true,
        },
        match last_in_hunk(rows, h) {
            Some(b) => 0 <= b < rows.len(),
            None => true,
        },
    decreases rows.len(),
{
    if rows.len() > 0 {
        lemma_first_last(rows.drop_last(), h);
    }
}

fn line_in_pane(line: &ViewLine, pane: Pane) -> (r: bool)
    ensures
        r == in_pane(*line, pane),
{
    match pane {
        Pane::Unified { evolution } => !evolution || !matches!(
            line.kind,
            LineKind::Deleted | LineKind::PendingDelete
        ),
        Pane::Old => line.old_line.is_some() || is_fold_line(line),
        Pane::New => line.new_line.is_some() || is_fold_line(line),
    }
}

/// No hunk has rows yet.
fn empty_bounds(total_hunks: usize) -> (r: Vec<Option<HunkBounds>>)
    ensures
        r@ == hunk_bounds_spec(Seq::empty(), total_hunks as nat),
{
    let mut bounds: Vec<Option<HunkBounds>> = Vec::new();
    let mut h: usize = 0;
    while h < total_hunks
        invariant
            0 <= h <= total_hunks,
            bounds.len() == h,
            forall|j: int| 0 <= j < h ==> (#[trigger] bounds@[j]) is None,
        decreases total_hunks - h,
    {
        bounds.push(None);
        h = h + 1;
    }
    assert(bounds@ =~= hunk_bounds_spec(Seq::empty(), total_hunks as nat));
    bounds
}

/// Takes in the next row, number `display_idx`, of a pane whose earlier rows
/// are `rows`.
fn record_row(
    bounds: &mut Vec<Option<HunkBounds>>,
    Ghost(rows): Ghost<Seq<RowKey>>,
    key: RowKey,
    display_idx: usize,
    total_hunks: usize,
)
    requires
        old(bounds)@ == hunk_bounds_spec(rows, total_hunks as nat),
        display_idx == rows.len(),
    ensures
        final(bounds)@ == hunk_bounds_spec(rows.push(key), total_hunks as nat),
{
    let ghost rows2 = rows.push(key);
    let ghost old_bounds = bounds@;
    let (hunk, change_id) = key;
    match hunk {
        Some(hidx) => {
            if hidx < total_hunks {
                let here = HunkStart { idx: display_idx, change_id: Some(change_id) };
                let updated = match bounds[hidx] {
                    Some(b) => HunkBounds { start: b.start, end: here },
                    None => HunkBounds { start: here, end: here },
                };
                bounds.set(hidx, Some(updated));
            }
        },
        None => {},
    }
    proof {
        assert forall|k: int| 0 <= k < rows.len() implies rows2[k] == rows[k] by {}
        assert forall|hh: int| 0 <= hh < total_hunks implies #[trigger] bounds@[hh] == hunk_bounds_spec(
            rows2,
            total_hunks as nat,
        )[hh] by {
            lemma_first_last(rows, hh);
            lemma_first_last(rows2, hh);
            assert(rows2.drop_last() =~= rows);
            let f = first_in_hunk(rows, hh);
            let l = last_in_hunk(rows, hh);
            if let Some(a) = f {
                assert(row_start(rows2, a) == row_start(rows, a));
            }
            if let Some(b) = l {
                assert(row_start(rows2, b) == row_start(rows, b));
            }
            assert(row_start(rows2, rows.len() as int) == HunkStart { idx: display_idx, change_id: Some(change_id) });
            assert(old_bounds[hh] == hunk_bounds_spec(rows, total_hunks as nat)[hh]);
        }
        assert(bounds@ =~= hunk_bounds_spec(rows2, total_hunks as nat));
    }
}

/// For each of the `total_hunks` hunks, the first and last rows of its lines
/// in the pane.
pub fn hunk_bounds_in_pane(view: &[ViewLine], pane: Pane, total_hunks: usize) -> (r: Vec<
    Option<HunkBounds>,
>)
    ensures
        r@ == hunk_bounds_spec(pane_keys(view@, pane), total_hunks as nat),
{
    let mut bounds = empty_bounds(total_hunks);
    assert(view@.take(0) =~= Seq::<ViewLine>::empty());
    assert(pane_keys(view@.take(0), pane) =~= Seq::<RowKey>::empty());
    let mut display_idx: usize = 0;
    let mut i: usize = 0;
    while i < view.len()
        invariant
            0 <= i <= view.len(),
            display_idx <= i,
            display_idx == pane_lines(view@.take(i as int), pane).len(),
            bounds@ == hunk_bounds_spec(pane_keys(view@.take(i as int), pane), total_hunks as nat),
        decreases view.len() - i,
    {
        let ghost rows = pane_keys(view@.take(i as int), pane);
        assert(view@.take(i + 1).drop_last() =~= view@.take(i as int));
        assert(view@.take(i + 1).last() == view@[i as int]);
        let line = &view[i];
        if line_in_pane(line, pane) {
            assert(pane_lines(view@.take(i + 1), pane) == pane_lines(view@.take(i as int), pane).push(*line));
            assert(pane_keys(view@.take(i + 1), pane) =~= rows.push(row_key(*line)));
            record_row(&mut bounds, Ghost(rows), (line.hunk_index, line.change_id), display_idx, total_hunks);
            display_idx = display_idx + 1;
        } else {
            assert(pane_lines(view@.take(i + 1), pane) == pane_lines(view@.take(i as int), pane));
            assert(pane_keys(view@.take(i + 1), pane) == rows);
        }
        i = i + 1;
    }
    assert(view@.take(view.len() as int) =~= view@);
    bounds
}

/// The first rows of the hunks, from their bounds.
fn starts_of(bounds: Vec<Option<HunkBounds>>, Ghost(rows): Ghost<Seq<RowKey>>, total_hunks: usize) -> (r: Vec<
    Option<HunkStart>,
>)
    requires
        bounds@ == hunk_bounds_spec(rows, total_hunks as nat),
    ensures
        r@ == hunk_starts_spec(rows, total_hunks as nat),
{
    let mut out: Vec<Option<HunkStart>> = Vec::new();
    let mut h: usize = 0;
    while h < bounds.len()
        invariant
            0 <= h <= bounds.len(),
            bounds.len() == total_hunks,
            bounds@ == hunk_bounds_spec(rows, total_hunks as nat),
            out.len() == h,
            forall|j: int| 0 <= j < h ==> #[trigger] out@[j] == hunk_starts_spec(rows, total_hunks as nat)[j],
        decreases bounds.len() - h,
    {
        proof {
            lemma_first_last(rows, h as int);
        }
        let s = match bounds[h] {
            Some(b) => Some(b.start),
            None => None,
        };
        out.push(s);
        h = h + 1;
    }
    assert(out@ =~= hunk_starts_spec(rows, total_hunks as nat));
    out
}

/// For each of the `total_hunks` hunks, the first row of its lines in the
/// pane.
pub fn hunk_starts_in_pane(view: &[ViewLine], pane: Pane, total_hunks: usize) -> (r: Vec<
    Option<HunkStart>,
>)
    ensures
        r@ == hunk_starts_spec(pane_keys(view@, pane), total_hunks as nat),
{
    let bounds = hunk_bounds_in_pane(view, pane, total_hunks);
    starts_of(bounds, Ghost(pane_keys(view@, pane)), total_hunks)
}

/// The pane of the unified, evolution and blame views.
pub open spec fn unified_pane(mode: ViewMode) -> Pane {
    Pane::Unified { evolution: mode == ViewMode::Evolution }
}

/// First rows of the hunks in the unified, evolution or blame view.
pub fn compute_hunk_starts_unified(view: &[ViewLine], view_mode: ViewMode, total_hunks: usize) -> (r:
    Vec<Option<HunkStart>>)
    ensures
        r@ == hunk_starts_spec(pane_keys(view@, unified_pane(view_mode)), total_hunks as nat),
{
    let pane = Pane::Unified { evolution: matches!(view_mode, ViewMode::Evolution) };
    hunk_starts_in_pane(view, pane, total_hunks)
}

/// First and last rows of the hunks in the unified, evolution or blame view.
pub fn compute_hunk_bounds_unified(view: &[ViewLine], view_mode: ViewMode, total_hunks: usize) -> (r:
    Vec<Option<HunkBounds>>)
    ensures
        r@ == hunk_bounds_spec(pane_keys(view@, unified_pane(view_mode)), total_hunks as nat),
{
    let pane = Pane::Unified { evolution: matches!(view_mode, ViewMode::Evolution) };
    hunk_bounds_in_pane(view, pane, total_hunks)
}

/// First rows of the hunks in the old and new panes of the split view.
pub fn compute_hunk_starts_split(view: &[ViewLine], total_hunks: usize) -> (r: (
    Vec<Option<HunkStart>>,
    Vec<Option<HunkStart>>,
))
    ensures
        r.0@ == hunk_starts_spec(pane_keys(view@, Pane::Old), total_hunks as nat),
        r.1@ == hunk_starts_spec(pane_keys(view@, Pane::New), total_hunks as nat),
{
    (hunk_starts_in_pane(view, Pane::Old, total_hunks), hunk_starts_in_pane(view, Pane::New, total_hunks))
}

/// First and last rows of the hunks in the old and new panes of the split
/// view.
pub fn compute_hunk_bounds_split(view: &[ViewLine], total_hunks: usize) -> (r: (
    Vec<Option<HunkBounds>>,
    Vec<Option<HunkBounds>>,
))
    ensures
        r.0@ == hunk_bounds_spec(pane_keys(view@, Pane::Old), total_hunks as nat),
        r.1@ == hunk_bounds_spec(pane_keys(view@, Pane::New), total_hunks as nat),
{
    (hunk_bounds_in_pane(view, Pane::Old, total_hunks), hunk_bounds_in_pane(view, Pane::New, total_hunks))
}

// ---------------------------------------------------------------------------
// Conflict markers.
// ---------------------------------------------------------------------------

/// Whether a line has a row in the evolution view while conflict markers
/// are looked for: a deleted line never, a line pending deletion only while
/// it is active and an animation runs.
pub open spec fn evolution_row(l: ViewLine, phase: AnimationPhase) -> bool {
    match l.kind {
        LineKind::Deleted => false,
        LineKind::PendingDelete => l.is_active && phase != AnimationPhase::Idle,
        _ => true,
    }
}

// ---------------------------------------------------------------------------
// Hunk positions from the changes alone, for files too large to lay out.
// ---------------------------------------------------------------------------

/// A pane whose rows are drawn from the changes of a diff, one per change.
#[derive(Debug, Clone, Copy, PartialEq, Eq, Structural)]
pub enum ChangePane {
    /// The unified or blame view (every change), or the evolution view
    /// (changes that still show text).
    Unified { evolution: bool },
    /// The old pane of the split view; with aligned lines, changes that have
    /// only a new line get a row too.
    Old { align: bool },
    /// The new pane of the split view; with aligned lines, changes that have
    /// only an old line get a row too.
    New { align: bool },
}

/// Some span of the change has an old line number.
pub open spec fn has_old_line(c: ChangeModel) -> bool {
    exists|k: int| 0 <= k < c.spans.len() && (#[trigger] c.spans[k]).old_line is Some
}

/// Some span of the change has a new line number.
pub open spec fn has_new_line(c: ChangeModel) -> bool {
    exists|k: int| 0 <= k < c.spans.len() && (#[trigger] c.spans[k]).new_line is Some
}

/// Some span of the change takes old text away (a deletion or replacement).
pub open spec fn removes_text(c: ChangeModel) -> bool {
    exists|k: int|
        0 <= k < c.spans.len() && ((#[trigger] c.spans[k]).kind == ChangeKind::Delete || c.spans[k].kind
            == ChangeKind::Replace)
}

/// Some span of the change brings new text (an insertion or replacement).
pub open spec fn brings_text(c: ChangeModel) -> bool {
    exists|k: int|
        0 <= k < c.spans.len() && ((#[trigger] c.spans[k]).kind == ChangeKind::Insert || c.spans[k].kind
            == ChangeKind::Replace)
}

/// In the evolution view a change keeps its row unless it only takes text
/// away.
pub open spec fn visible_in_evolution(c: ChangeModel) -> bool {
    !removes_text(c) || brings_text(c)
}

/// Whether a change has a row in the pane.
pub open spec fn change_in_pane(c: ChangeModel, pane: ChangePane) -> bool {
    match pane {
        ChangePane::Unified { evolution } => !evolution || visible_in_evolution(c),
        ChangePane::Old { align } => has_old_line(c) || (align && has_new_line(c)),
        ChangePane::New { align } => has_new_line(c) || (align && has_old_line(c)),
    }
}

/// The rows of the pane drawn from the changes `cs`, with the hunk that
/// `map` gives each change (none past its end).
pub open spec fn change_keys(cs: Seq<ChangeModel>, map: Seq<Option<usize>>, pane: ChangePane) -> Seq<RowKey>
    decreases cs.len(),
{
    if cs.len() == 0 {
        Seq::empty()
    } else {
        let prev = change_keys(cs.drop_last(), map, pane);
        let i = cs.len() - 1;
        if change_in_pane(cs.last(), pane) {
            prev.push((if i < map.len() { map[i] } else { None }, cs.last().id))
        } else {
            prev
        }
    }
}

/// The rows of the pane drawn from the changes of the navigator's diff,
/// each with its hunk.
pub open spec fn nav_keys(nav: crate::diff::NavigatorModel, pane: ChangePane) -> Seq<RowKey> {
    change_keys(nav.diff.changes, assign_hunks(nav.diff.changes, hunk_pairs(nav.diff.hunks)), pane)
}

/// Whether the change keeps its row in the evolution view (see
/// [`visible_in_evolution`]).
pub fn change_visible_in_evolution(change: &Change) -> (r: bool)
    ensures
        r == visible_in_evolution(change@),
{
    let ghost c = change@;
    let mut has_old = false;
    let mut has_new = false;
    let mut i: usize = 0;
    while i < change.spans.len()
        invariant
            0 <= i <= change.spans.len(),
            c == change@,
            has_old == exists|k: int|
                0 <= k < i && ((#[trigger] c.spans[k]).kind == ChangeKind::Delete || c.spans[k].kind
                    == ChangeKind::Replace),
            has_new == exists|k: int|
                0 <= k < i && ((#[trigger] c.spans[k]).kind == ChangeKind::Insert || c.spans[k].kind
                    == ChangeKind::Replace),
        decreases change.spans.len() - i,
    {
        assert(c.spans[i as int] == change.spans@[i as int]@);
        match change.spans[i].kind {
            ChangeKind::Insert => {
                has_new = true;
            },
            ChangeKind::Delete => {
                has_old = true;
            },
            ChangeKind::Replace => {
                has_old = true;
                has_new = true;
            },
            ChangeKind::Equal => {},
        }
        i = i + 1;
    }
    !has_old || has_new
}

/// Whether some span of the change has an old line number, and whether some
/// has a new one.
fn change_sides(change: &Change) -> (r: (bool, bool))
    ensures
        r.0 == has_old_line(change@),
        r.1 == has_new_line(change@),
{
    let ghost c = change@;
    let mut has_old = false;
    let mut has_new = false;
    let mut i: usize = 0;
    while i < change.spans.len()
        invariant
            0 <= i <= change.spans.len(),
            c == change@,
            has_old == exists|k: int| 0 <= k < i && (#[trigger] c.spans[k]).old_line is Some,
            has_new == exists|k: int| 0 <= k < i && (#[trigger] c.spans[k]).new_line is Some,
        decreases change.spans.len() - i,
    {
        assert(c.spans[i as int] == change.spans@[i as int]@);
        if change.spans[i].old_line.is_some() {
            has_old = true;
        }
        if change.spans[i].new_line.is_some() {
            has_new = true;
        }
        i = i + 1;
    }
    (has_old, has_new)
}

fn change_has_row(change: &Change, pane: ChangePane) -> (r: bool)
    ensures
        r == change_in_pane(change@, pane),
{
    match pane {
        ChangePane::Unified { evolution } => !evolution || change_visible_in_evolution(change),
        ChangePane::Old { align } => {
            let (has_old, has_new) = change_sides(change);
            has_old || (align && has_new)
        },
        ChangePane::New { align } => {
            let (has_old, has_new) = change_sides(change);
            has_new || (align && has_old)
        },
    }
}

/// For each of the `total_hunks` hunks, its first and last rows in a pane
/// drawn from the changes of the navigator's diff.
pub fn hunk_bounds_from_changes(nav: &DiffNavigator, pane: ChangePane, total_hunks: usize) -> (r: Vec<
    Option<HunkBounds>,
>)
    ensures
        r@ == hunk_bounds_spec(nav_keys(nav@, pane), total_hunks as nat),
{
    let diff = nav.diff();
    let hunk_map = build_hunk_change_index_map(nav);
    let ghost cs = nav@.diff.changes;
    let ghost map = hunk_map@;
    let mut bounds = empty_bounds(total_hunks);
    assert(cs.take(0) =~= Seq::<ChangeModel>::empty());
    let mut display_idx: usize = 0;
    let mut i: usize = 0;
    while i < diff.changes.len()
        invariant
            0 <= i <= diff.changes.len(),
            cs == crate::diff::changes_view(diff.changes@),
            map == hunk_map@,
            display_idx <= i,
            display_idx == change_keys(cs.take(i as int), map, pane).len(),
            bounds@ == hunk_bounds_spec(change_keys(cs.take(i as int), map, pane), total_hunks as nat),
        decreases diff.changes.len() - i,
    {
        let ghost rows = change_keys(cs.take(i as int), map, pane);
        assert(cs.take(i + 1).drop_last() =~= cs.take(i as int));
        assert(cs.take(i + 1).last() == cs[i as int]);
        let change = &diff.changes[i];
        assert(change@ == cs[i as int]);
        if change_has_row(change, pane) {
            let hunk = if i < hunk_map.len() {
                hunk_map[i]
            } else {
                None
            };
            assert(change_keys(cs.take(i + 1), map, pane) == rows.push((hunk, change.id)));
            record_row(&mut bounds, Ghost(rows), (hunk, change.id), display_idx, total_hunks);
            display_idx = display_idx + 1;
        } else {
            assert(change_keys(cs.take(i + 1), map, pane) == rows);
        }
        i = i + 1;
    }
    assert(cs.take(i as int) =~= cs);
    bounds
}

/// For each of the `total_hunks` hunks, its first row in a pane drawn from
/// the changes of the navigator's diff.
pub fn hunk_starts_from_changes(nav: &DiffNavigator, pane: ChangePane, total_hunks: usize) -> (r: Vec<
    Option<HunkStart>,
>)
    ensures
        r@ == hunk_starts_spec(nav_keys(nav@, pane), total_hunks as nat),
{
    let bounds = hunk_bounds_from_changes(nav, pane, total_hunks);
    starts_of(bounds, Ghost(nav_keys(nav@, pane)), total_hunks)
}

/// The pane of the unified, evolution and blame views drawn from changes.
pub open spec fn unified_change_pane(mode: ViewMode) -> ChangePane {
    ChangePane::Unified { evolution: mode == ViewMode::Evolution }
}

/// First rows of the hunks in the unified, evolution or blame view, from
/// the changes alone.
pub fn compute_hunk_starts_unified_fast(nav: &DiffNavigator, view_mode: ViewMode, total_hunks: usize) -> (r: Vec<
    Option<HunkStart>,
>)
    ensures
        r@ == hunk_starts_spec(nav_keys(nav@, unified_change_pane(view_mode)), total_hunks as nat),
{
    hunk_starts_from_changes(nav, ChangePane::Unified { evolution: matches!(view_mode, ViewMode::Evolution) }, total_hunks)
}

/// First and last rows of the hunks in the unified, evolution or blame
/// view, from the changes alone.
pub fn compute_hunk_bounds_unified_fast(nav: &DiffNavigator, view_mode: ViewMode, total_hunks: usize) -> (r: Vec<
    Option<HunkBounds>,
>)
    ensures
        r@ == hunk_bounds_spec(nav_keys(nav@, unified_change_pane(view_mode)), total_hunks as nat),
{
    hunk_bounds_from_changes(nav, ChangePane::Unified { evolution: matches!(view_mode, ViewMode::Evolution) }, total_hunks)
}

/// First rows of the hunks in the old and new panes of the split view, from
/// the changes alone.
pub fn compute_hunk_starts_split_fast(nav: &DiffNavigator, split_align_lines: bool, total_hunks: usize) -> (r: (
    Vec<Option<HunkStart>>,
    Vec<Option<HunkStart>>,
))
    ensures
        r.0@ == hunk_starts_spec(nav_keys(nav@, ChangePane::Old { align: split_align_lines }), total_hunks as nat),
        r.1@ == hunk_starts_spec(nav_keys(nav@, ChangePane::New { align: split_align_lines }), total_hunks as nat),
{
    (
        hunk_starts_from_changes(nav, ChangePane::Old { align: split_align_lines }, total_hunks),
        hunk_starts_from_changes(nav, ChangePane::New { align: split_align_lines }, total_hunks),
    )
}

/// First and last rows of the hunks in the old and new panes of the split
/// view, from the changes alone.
pub fn compute_hunk_bounds_split_fast(nav: &DiffNavigator, split_align_lines: bool, total_hunks: usize) -> (r: (
    Vec<Option<HunkBounds>>,
    Vec<Option<HunkBounds>>,
))
    ensures
        r.0@ == hunk_bounds_spec(nav_keys(nav@, ChangePane::Old { align: split_align_lines }), total_hunks as nat),
        r.1@ == hunk_bounds_spec(nav_keys(nav@, ChangePane::New { align: split_align_lines }), total_hunks as nat),
{
    (
        hunk_bounds_from_changes(nav, ChangePane::Old { align: split_align_lines }, total_hunks),
        hunk_bounds_from_changes(nav, ChangePane::New { align: split_align_lines }, total_hunks),
    )
}

/// In the split view, a line has a row in the new pane when it has a new
/// line number and is not deleted.
pub open spec fn split_new_row(l: ViewLine) -> bool {
    l.new_line is Some && !(l.kind == LineKind::Deleted || l.kind == LineKind::PendingDelete)
}

/// Scans the view for conflict markers: the markers found, and the rows
/// counted so far (the single pane's, or the old and new panes' in the
/// split view, where a line takes its new-pane row when it has one).
pub open spec fn marker_scan(view: Seq<ViewLine>, mode: ViewMode, phase: AnimationPhase) -> (
    Seq<ConflictMarker>,
    nat,
    nat,
)
    decreases view.len(),
{
    if view.len() == 0 {
        (Seq::empty(), 0, 0)
    } else {
        let prev = marker_scan(view.drop_last(), mode, phase);
        let l = view.last();
        let is_marker = is_conflict_marker_text(l.content@);
        let at = |row: nat|
            if is_marker {
                prev.0.push(ConflictMarker { display_idx: row as usize, change_id: l.change_id })
            } else {
                prev.0
            };
        match mode {
            ViewMode::Evolution => if evolution_row(l, phase) {
                (at(prev.1), prev.1 + 1, prev.2)
            } else {
                prev
            },
            ViewMode::Split => if split_new_row(l) {
                (at(prev.2), prev.1, prev.2 + 1)
            } else if l.old_line is Some {
                (at(prev.1), prev.1 + 1, prev.2)
            } else {
                prev
            },
            _ => (at(prev.1), prev.1 + 1, prev.2),
        }
    }
}

/// The lines of the view that start a merge-conflict marker, with their
/// display rows in the current view mode.
pub fn collect_conflict_markers(
    view: &[ViewLine],
    view_mode: ViewMode,
    animation_phase: AnimationPhase,
) -> (r: Vec<ConflictMarker>)
    ensures
        r@ == marker_scan(view@, view_mode, animation_phase).0,
{
    let mut markers: Vec<ConflictMarker> = Vec::new();
    let mut a: usize = 0;
    let mut b: usize = 0;
    let mut i: usize = 0;
    assert(view@.take(0) =~= Seq::<ViewLine>::empty());
    while i < view.len()
        invariant
            0 <= i <= view.len(),
            a + b <= i,
            ({
                let s = marker_scan(view@.take(i as int), view_mode, animation_phase);
                &&& markers@ == s.0
                &&& a == s.1
                &&& b == s.2
            }),
        decreases view.len() - i,
    {
        assert(view@.take(i + 1).drop_last() =~= view@.take(i as int));
        assert(view@.take(i + 1).last() == view@[i as int]);
        let line = &view[i];
        let marker = is_conflict_marker(line);
        match view_mode {
            ViewMode::Evolution => {
                let visible = match line.kind {
                    LineKind::Deleted => false,
                    LineKind::PendingDelete => line.is_active && !matches!(
                        animation_phase,
                        AnimationPhase::Idle
                    ),
                    _ => true,
                };
                if visible {
                    if marker {
                        markers.push(ConflictMarker { display_idx: a, change_id: line.change_id });
                    }
                    a = a + 1;
                }
            },
            ViewMode::Split => {
                let has_new = line.new_line.is_some() && !matches!(
                    line.kind,
                    LineKind::Deleted | LineKind::PendingDelete
                );
                if has_new {
                    if marker {
                        markers.push(ConflictMarker { display_idx: b, change_id: line.change_id });
                    }
                    b = b + 1;
                } else if line.old_line.is_some() {
                    if marker {
                        markers.push(ConflictMarker { display_idx: a, change_id: line.change_id });
                    }
                    a = a + 1;
                }
            },
            _ => {
                if marker {
                    markers.push(ConflictMarker { display_idx: a, change_id: line.change_id });
                }
                a = a + 1;
            },
        }
        i = i + 1;
    }
    assert(view@.take(view.len() as int) =~= view@);
    markers
}

// ---------------------------------------------------------------------------
// Moving between hunks without stepping.
// ---------------------------------------------------------------------------

/// A hunk and its first row.
pub open spec fn hunk_at(starts: Seq<Option<HunkStart>>, j: int) -> (usize, HunkStart) {
    (j as usize, starts[j]->0)
}

/// The first hunk at or after `from` that has rows.
pub open spec fn first_from(starts: Seq<Option<HunkStart>>, from: int) -> Option<int>
    decreases starts.len() - from,
{
    if from < 0 || from >= starts.len() {
        None
    } else if starts[from] is Some {
        Some(from)
    } else {
        first_from(starts, from + 1)
    }
}

/// The last hunk that has rows.
pub open spec fn last_present(starts: Seq<Option<HunkStart>>) -> Option<int>
    decreases starts.len(),
{
    if starts.len() == 0 {
        None
    } else if starts.last() is Some {
        Some(starts.len() - 1)
    } else {
        last_present(starts.drop_last())
    }
}

/// The last hunk whose first row is above the scroll offset (or at it, when
/// `inclusive`).
pub open spec fn last_above(starts: Seq<Option<HunkStart>>, scroll_offset: usize, inclusive: bool) -> Option<
    int,
>
    decreases starts.len(),
{
    if starts.len() == 0 {
        None
    } else if (match starts.last() {
        Some(x) => if inclusive {
            x.idx <= scroll_offset
        } else {
            x.idx < scroll_offset
        },
        None => false,
    }) {
        Some(starts.len() - 1)
    } else {
        last_above(starts.drop_last(), scroll_offset, inclusive)
    }
}

/// How many hunks have rows.
pub open spec fn present_count(starts: Seq<Option<HunkStart>>) -> nat
    decreases starts.len(),
{
    if starts.len() == 0 {
        0
    } else {
        present_count(starts.drop_last()) + if starts.last() is Some {
            1nat
        } else {
            0nat
        }
    }
}

/// The hunk at a found position.
pub open spec fn found_hunk(starts: Seq<Option<HunkStart>>, j: Option<int>) -> Option<(usize, HunkStart)> {
    match j {
        Some(k) => Some(hunk_at(starts, k)),
        None => None,
    }
}

proof fn lemma_first_from(starts: Seq<Option<HunkStart>>, from: int)
    ensures
        match first_from(starts, from) {
            Some(k) => 0 <= from <= k < starts.len() && starts[k] is Some && forall|j: int|
                from <= j < k ==> starts[j] is None,
            None => forall|j: int| 0 <= from <= j < starts.len() ==> starts[j] is None,
        },
    decreases starts.len() - from,
{
    if !(from < 0 || from >= starts.len()) && starts[from] is None {
        lemma_first_from(starts, from + 1);
    }
}

fn first_present_from(starts: &[Option<HunkStart>], from: usize) -> (r: Option<(usize, HunkStart)>)
    ensures
        r == found_hunk(starts@, first_from(starts@, from as int)),
{
    let mut j = from;
    while j < starts.len()
        invariant
            from <= j,
            first_from(starts@, from as int) == first_from(starts@, j as int),
        decreases starts.len() - j,
    {
        if let Some(st) = starts[j] {
            return Some((j, st));
        }
        j = j + 1;
    }
    None
}

fn last_above_pos(starts: &[Option<HunkStart>], scroll_offset: usize, inclusive: bool) -> (r: Option<usize>)
    ensures
        match r {
            Some(c) => last_above(starts@, scroll_offset, inclusive) == Some(c as int) && c < starts.len(),
            None => last_above(starts@, scroll_offset, inclusive) is None,
        },
{
    let mut k = starts.len();
    assert(starts@.take(k as int) =~= starts@);
    while k > 0
        invariant
            k <= starts.len(),
            last_above(starts@, scroll_offset, inclusive) == last_above(starts@.take(k as int), scroll_offset, inclusive),
        decreases k,
    {
        assert(starts@.take(k as int).drop_last() =~= starts@.take(k - 1));
        assert(starts@.take(k as int).last() == starts@[k - 1]);
        let hit = match starts[k - 1] {
            Some(x) => if inclusive {
                x.idx <= scroll_offset
            } else {
                x.idx < scroll_offset
            },
            None => false,
        };
        if hit {
            return Some(k - 1);
        }
        k = k - 1;
    }
    assert(starts@.take(0) =~= Seq::<Option<HunkStart>>::empty());
    None
}

/// The first hunk after the last one that starts above the scroll offset
/// (at it too when `inclusive`), or the first hunk when none does.
pub fn next_hunk_from_starts(starts: &[Option<HunkStart>], scroll_offset: usize, inclusive: bool) -> (r:
    Option<(usize, HunkStart)>)
    ensures
        r == found_hunk(
            starts@,
            first_from(
                starts@,
                match last_above(starts@, scroll_offset, inclusive) {
                    Some(c) => c + 1,
                    None => 0,
                },
            ),
        ),
{
    let current = last_above_pos(starts, scroll_offset, inclusive);
    let from = match current {
        Some(c) => c + 1,
        None => 0,
    };
    first_present_from(starts, from)
}

/// The first hunk after `current_hunk`.
pub fn next_hunk_from_index(starts: &[Option<HunkStart>], current_hunk: usize) -> (r: Option<(usize, HunkStart)>)
    ensures
        r == found_hunk(starts@, first_from(starts@, current_hunk + 1)),
{
    if current_hunk >= starts.len() {
        return None;
    }
    first_present_from(starts, current_hunk + 1)
}

/// The first hunk that has rows.
pub fn first_hunk_from_starts(starts: &[Option<HunkStart>]) -> (r: Option<(usize, HunkStart)>)
    ensures
        r == found_hunk(starts@, first_from(starts@, 0)),
{
    first_present_from(starts, 0)
}

fn last_present_before(starts: &[Option<HunkStart>], end: usize) -> (r: Option<(usize, HunkStart)>)
    requires
        end <= starts.len(),
    ensures
        r == found_hunk(starts@, last_present(starts@.take(end as int))),
{
    let mut k = end;
    while k > 0
        invariant
            k <= end <= starts.len(),
            last_present(starts@.take(end as int)) == last_present(starts@.take(k as int)),
        decreases k,
    {
        assert(starts@.take(k as int).drop_last() =~= starts@.take(k - 1));
        assert(starts@.take(k as int).last() == starts@[k - 1]);
        if let Some(st) = starts[k - 1] {
            return Some((k - 1, st));
        }
        k = k - 1;
    }
    assert(starts@.take(0) =~= Seq::<Option<HunkStart>>::empty());
    None
}

/// The last hunk that has rows.
pub fn last_hunk_from_starts(starts: &[Option<HunkStart>]) -> (r: Option<(usize, HunkStart)>)
    ensures
        r == found_hunk(starts@, last_present(starts@)),
{
    let r = last_present_before(starts, starts.len());
    assert(starts@.take(starts.len() as int) =~= starts@);
    r
}

/// The last hunk whose first row is above the scroll offset.
pub fn prev_hunk_from_starts(starts: &[Option<HunkStart>], scroll_offset: usize) -> (r: Option<(usize, HunkStart)>)
    ensures
        r == found_hunk(starts@, last_above(starts@, scroll_offset, false)),
{
    let mut k = starts.len();
    assert(starts@.take(k as int) =~= starts@);
    while k > 0
        invariant
            k <= starts.len(),
            last_above(starts@, scroll_offset, false) == last_above(starts@.take(k as int), scroll_offset, false),
        decreases k,
    {
        assert(starts@.take(k as int).drop_last() =~= starts@.take(k - 1));
        assert(starts@.take(k as int).last() == starts@[k - 1]);
        if let Some(x) = starts[k - 1] {
            if x.idx < scroll_offset {
                return Some((k - 1, x));
            }
        }
        k = k - 1;
    }
    assert(starts@.take(0) =~= Seq::<Option<HunkStart>>::empty());
    None
}

/// The last hunk before `current_hunk` (before the last hunk when
/// `current_hunk` is past it).
pub fn prev_hunk_from_index(starts: &[Option<HunkStart>], current_hunk: usize) -> (r: Option<(usize, HunkStart)>)
    ensures
        r == if starts.len() == 0 {
            None
        } else {
            found_hunk(
                starts@,
                last_present(
                    starts@.take(
                        if current_hunk < starts.len() - 1 {
                            current_hunk as int
                        } else {
                            starts.len() - 1
                        },
                    ),
                ),
            )
        },
{
    if starts.len() == 0 {
        return None;
    }
    let end = if current_hunk < starts.len() - 1 {
        current_hunk
    } else {
        starts.len() - 1
    };
    last_present_before(starts, end)
}

/// The only hunk that has rows, when exactly one has.
pub fn unified_hunk_fallback(starts: &[Option<HunkStart>]) -> (r: Option<(usize, HunkStart)>)
    ensures
        r == if present_count(starts@) == 1 {
            found_hunk(starts@, first_from(starts@, 0))
        } else {
            None
        },
{
    let mut only: Option<(usize, HunkStart)> = None;
    let mut i: usize = 0;
    assert(starts@.take(0) =~= Seq::<Option<HunkStart>>::empty());
    while i < starts.len()
        invariant
            0 <= i <= starts.len(),
            present_count(starts@.take(i as int)) <= 1,
            only == if present_count(starts@.take(i as int)) == 1 {
                found_hunk(starts@, first_from(starts@, 0))
            } else {
                None
            },
            present_count(starts@.take(i as int)) == 0 ==> forall|j: int| 0 <= j < i ==> starts@[j] is None,
        decreases starts.len() - i,
    {
        assert(starts@.take(i + 1).drop_last() =~= starts@.take(i as int));
        assert(starts@.take(i + 1).last() == starts@[i as int]);
        if let Some(st) = starts[i] {
            if only.is_some() {
                proof {
                    lemma_count_grows(starts@, i as int + 1);
                }
                return None;
            }
            proof {
                lemma_first_from(starts@, 0);
                assert(first_from(starts@, 0) == Some(i as int));
            }
            only = Some((i, st));
        }
        i = i + 1;
    }
    assert(starts@.take(starts.len() as int) =~= starts@);
    only
}

proof fn lemma_count_grows(starts: Seq<Option<HunkStart>>, n: int)
    requires
        0 <= n <= starts.len(),
        present_count(starts.take(n)) >= 2,
    ensures
        present_count(starts) >= 2,
    decreases starts.len() - n,
{
    if n < starts.len() {
        assert(starts.take(n + 1).drop_last() =~= starts.take(n));
        lemma_count_grows(starts, n + 1);
    } else {
        assert(starts.take(n) =~= starts);
    }
}

/// Of a hunk's first row in each pane, the one nearer the scroll offset.
pub fn pick_split_start(old: Option<HunkStart>, new: Option<HunkStart>, scroll_offset: usize) -> (r:
    Option<HunkStart>)
    requires
        old matches Some(o) ==> o.idx <= isize::MAX,
        new matches Some(n) ==> n.idx <= isize::MAX,
        scroll_offset <= isize::MAX,
    ensures
        r == split_start_spec(old, new, scroll_offset),
{
    match (old, new) {
        (Some(o), Some(n)) => {
            let od = if o.idx >= scroll_offset {
                o.idx - scroll_offset
            } else {
                scroll_offset - o.idx
            };
            let nd = if n.idx >= scroll_offset {
                n.idx - scroll_offset
            } else {
                scroll_offset - n.idx
            };
            if od < nd {
                Some(o)
            } else {
                Some(n)
            }
        },
        (Some(o), None) => Some(o),
        (None, Some(n)) => Some(n),
        (None, None) => None,
    }
}

/// For each hunk, its first row in the split pane nearer the scroll offset.
pub fn effective_split_starts(
    old_starts: &[Option<HunkStart>],
    new_starts: &[Option<HunkStart>],
    scroll_offset: usize,
) -> (r: Vec<Option<HunkStart>>)
    requires
        forall|j: int| 0 <= j < old_starts.len() ==> (#[trigger] old_starts@[j] matches Some(o) ==> o.idx <= isize::MAX),
        forall|j: int| 0 <= j < new_starts.len() ==> (#[trigger] new_starts@[j] matches Some(o) ==> o.idx <= isize::MAX),
        scroll_offset <= isize::MAX,
    ensures
        r.len() == if old_starts.len() < new_starts.len() {
            old_starts.len()
        } else {
            new_starts.len()
        },
        forall|j: int|
            0 <= j < r.len() ==> #[trigger] r@[j] == split_start_spec(old_starts@[j], new_starts@[j], scroll_offset),
{
    let n = if old_starts.len() < new_starts.len() {
        old_starts.len()
    } else {
        new_starts.len()
    };
    let mut out: Vec<Option<HunkStart>> = Vec::new();
    let mut j: usize = 0;
    while j < n
        invariant
            0 <= j <= n,
            n <= old_starts.len(),
            n <= new_starts.len(),
            scroll_offset <= isize::MAX,
            forall|k: int| 0 <= k < old_starts.len() ==> (#[trigger] old_starts@[k] matches Some(o) ==> o.idx <= isize::MAX),
            forall|k: int| 0 <= k < new_starts.len() ==> (#[trigger] new_starts@[k] matches Some(o) ==> o.idx <= isize::MAX),
            out.len() == j,
            forall|k: int|
                0 <= k < j ==> #[trigger] out@[k] == split_start_spec(old_starts@[k], new_starts@[k], scroll_offset),
        decreases n - j,
    {
        out.push(pick_split_start(old_starts[j], new_starts[j], scroll_offset));
        j = j + 1;
    }
    out
}

/// Of a hunk's first row in each pane, the one nearer the scroll offset.
pub open spec fn split_start_spec(old: Option<HunkStart>, new: Option<HunkStart>, scroll_offset: usize) -> Option<
    HunkStart,
> {
    match (old, new) {
        (Some(o), Some(n)) => if crate::jump::distance(o.idx as int, scroll_offset as int)
            < crate::jump::distance(n.idx as int, scroll_offset as int) {
            Some(o)
        } else {
            Some(n)
        },
        (Some(o), None) => Some(o),
        (None, Some(n)) => Some(n),
        (None, None) => None,
    }
}

/// What moving to the next or previous hunk without stepping does.
#[derive(Debug, Clone, Copy, PartialEq, Eq, Structural)]
pub enum HunkScrollStep {
    /// Scroll to the first row of `hunk`.
    Jump { hunk: usize, start: HunkStart },
    /// Move on to the neighbouring file.
    WrapFile,
    /// Stay: the first or last hunk was reached.
    Edge,
}

/// The move to the next (`forward`) or previous hunk: from the cursor's hunk
/// when it is used (and in range), else from the scroll offset; failing
/// that the only hunk there is; failing that, wrapping within the file to
/// the first or last hunk when hunks wrap; else moving on to the next file
/// when files wrap, or staying at the edge.
pub open spec fn hunk_scroll_spec(
    starts: Seq<Option<HunkStart>>,
    forward: bool,
    use_cursor: bool,
    current_hunk: usize,
    inclusive: bool,
    scroll_offset: usize,
    wrap: crate::config::HunkWrapMode,
) -> HunkScrollStep {
    let t1 = if use_cursor && current_hunk < starts.len() {
        if forward {
            found_hunk(starts, first_from(starts, current_hunk + 1))
        } else {
            found_hunk(
                starts,
                last_present(
                    starts.take(
                        if current_hunk < starts.len() - 1 {
                            current_hunk as int
                        } else {
                            starts.len() - 1
                        },
                    ),
                ),
            )
        }
    } else if forward {
        found_hunk(
            starts,
            first_from(
                starts,
                match last_above(starts, scroll_offset, inclusive) {
                    Some(c) => c + 1,
                    None => 0,
                },
            ),
        )
    } else {
        found_hunk(starts, last_above(starts, scroll_offset, false))
    };
    let t2 = if t1 is None {
        if present_count(starts) == 1 {
            found_hunk(starts, first_from(starts, 0))
        } else {
            None
        }
    } else {
        t1
    };
    let t3 = if t2 is None && wrap == crate::config::HunkWrapMode::Hunk {
        if forward {
            found_hunk(starts, first_from(starts, 0))
        } else {
            found_hunk(starts, last_present(starts))
        }
    } else {
        t2
    };
    match t3 {
        Some((hunk, start)) => HunkScrollStep::Jump { hunk, start },
        None => if wrap == crate::config::HunkWrapMode::File {
            HunkScrollStep::WrapFile
        } else {
            HunkScrollStep::Edge
        },
    }
}

/// The move to the next or previous hunk without stepping (see
/// [`hunk_scroll_spec`]).
pub fn hunk_scroll_step(
    starts: &[Option<HunkStart>],
    forward: bool,
    use_cursor: bool,
    current_hunk: usize,
    inclusive: bool,
    scroll_offset: usize,
    wrap: crate::config::HunkWrapMode,
) -> (r: HunkScrollStep)
    ensures
        r == hunk_scroll_spec(starts@, forward, use_cursor, current_hunk, inclusive, scroll_offset, wrap),
{
    let mut target = if use_cursor && current_hunk < starts.len() {
        if forward {
            next_hunk_from_index(starts, current_hunk)
        } else {
            prev_hunk_from_index(starts, current_hunk)
        }
    } else if forward {
        next_hunk_from_starts(starts, scroll_offset, inclusive)
    } else {
        prev_hunk_from_starts(starts, scroll_offset)
    };
    if target.is_none() {
        target = unified_hunk_fallback(starts);
    }
    if target.is_none() && matches!(wrap, crate::config::HunkWrapMode::Hunk) {
        target = if forward {
            first_hunk_from_starts(starts)
        } else {
            last_hunk_from_starts(starts)
        };
    }
    match target {
        Some((hunk, start)) => HunkScrollStep::Jump { hunk, start },
        None => if matches!(wrap, crate::config::HunkWrapMode::File) {
            HunkScrollStep::WrapFile
        } else {
            HunkScrollStep::Edge
        },
    }
}

// ---------------------------------------------------------------------------
// Jumping to the start or end of the current hunk.
// ---------------------------------------------------------------------------

/// The last hunk whose first row is at or above the scroll offset.
pub open spec fn hunk_at_scroll(bounds: Seq<Option<HunkBounds>>, scroll_offset: usize) -> Option<int>
    decreases bounds.len(),
{
    if bounds.len() == 0 {
        None
    } else if (match bounds.last() {
        Some(b) => b.start.idx <= scroll_offset,
        None => false,
    }) {
        Some(bounds.len() - 1)
    } else {
        hunk_at_scroll(bounds.drop_last(), scroll_offset)
    }
}

/// The first hunk that has rows.
pub open spec fn first_bounds(bounds: Seq<Option<HunkBounds>>) -> Option<int>
    decreases bounds.len(),
{
    if bounds.len() == 0 {
        None
    } else {
        match first_bounds(bounds.drop_last()) {
            Some(k) => Some(k),
            None => if bounds.last() is Some {
                Some(bounds.len() - 1)
            } else {
                None
            },
        }
    }
}

/// The hunk whose start or end a jump goes to: the cursor's hunk while
/// moving by hunks, else the hunk at the scroll position, when it has rows;
/// failing that the first hunk that has rows.
pub open spec fn hunk_edge_target_spec(
    bounds: Seq<Option<HunkBounds>>,
    in_hunk_scope: bool,
    current_hunk: usize,
    scroll_offset: usize,
) -> Option<(usize, HunkBounds)> {
    let h: Option<int> = if in_hunk_scope {
        Some(current_hunk as int)
    } else {
        hunk_at_scroll(bounds, scroll_offset)
    };
    let direct = match h {
        Some(i) => if 0 <= i < bounds.len() && bounds[i] is Some {
            Some((i as usize, bounds[i]->0))
        } else {
            None
        },
        None => None,
    };
    match direct {
        Some(t) => Some(t),
        None => match first_bounds(bounds) {
            Some(k) => Some((k as usize, bounds[k]->0)),
            None => None,
        },
    }
}

proof fn lemma_hunk_at_scroll(bounds: Seq<Option<HunkBounds>>, scroll_offset: usize)
    ensures
        hunk_at_scroll(bounds, scroll_offset) matches Some(k) ==> 0 <= k < bounds.len(),
    decreases bounds.len(),
{
    if bounds.len() > 0 {
        lemma_hunk_at_scroll(bounds.drop_last(), scroll_offset);
    }
}

proof fn lemma_first_bounds(bounds: Seq<Option<HunkBounds>>)
    ensures
        first_bounds(bounds) matches Some(k) ==> 0 <= k < bounds.len() && bounds[k] is Some,
    decreases bounds.len(),
{
    if bounds.len() > 0 {
        lemma_first_bounds(bounds.drop_last());
    }
}

/// The hunk at the scroll position (see [`hunk_at_scroll`]).
pub fn current_hunk_from_bounds(bounds: &[Option<HunkBounds>], scroll_offset: usize) -> (r: Option<usize>)
    ensures
        r == match hunk_at_scroll(bounds@, scroll_offset) {
            Some(k) => Some(k as usize),
            None => None,
        },
{
    let mut k = bounds.len();
    assert(bounds@.take(k as int) =~= bounds@);
    while k > 0
        invariant
            k <= bounds.len(),
            hunk_at_scroll(bounds@, scroll_offset) == hunk_at_scroll(bounds@.take(k as int), scroll_offset),
        decreases k,
    {
        assert(bounds@.take(k as int).drop_last() =~= bounds@.take(k - 1));
        assert(bounds@.take(k as int).last() == bounds@[k - 1]);
        if let Some(b) = bounds[k - 1] {
            if b.start.idx <= scroll_offset {
                return Some(k - 1);
            }
        }
        k = k - 1;
    }
    assert(bounds@.take(0) =~= Seq::<Option<HunkBounds>>::empty());
    None
}

/// The first hunk that has rows, with its bounds.
pub fn first_available_hunk(bounds: &[Option<HunkBounds>]) -> (r: Option<(usize, HunkBounds)>)
    ensures
        r == match first_bounds(bounds@) {
            Some(k) => Some((k as usize, bounds@[k]->0)),
            None => None,
        },
{
    let mut i: usize = 0;
    assert(bounds@.take(0) =~= Seq::<Option<HunkBounds>>::empty());
    while i < bounds.len()
        invariant
            0 <= i <= bounds.len(),
            first_bounds(bounds@.take(i as int)) is None,
        decreases bounds.len() - i,
    {
        assert(bounds@.take(i + 1).drop_last() =~= bounds@.take(i as int));
        assert(bounds@.take(i + 1).last() == bounds@[i as int]);
        if let Some(b) = bounds[i] {
            proof {
                lemma_first_bounds_extend(bounds@, i as int + 1);
            }
            return Some((i, b));
        }
        i = i + 1;
    }
    assert(bounds@.take(bounds.len() as int) =~= bounds@);
    None
}

proof fn lemma_first_bounds_extend(bounds: Seq<Option<HunkBounds>>, k: int)
    requires
        0 <= k <= bounds.len(),
        first_bounds(bounds.take(k)) is Some,
    ensures
        first_bounds(bounds) == first_bounds(bounds.take(k)),
    decreases bounds.len() - k,
{
    if k < bounds.len() {
        assert(bounds.take(k + 1).drop_last() =~= bounds.take(k));
        lemma_first_bounds_extend(bounds, k + 1);
    } else {
        assert(bounds.take(k) =~= bounds);
    }
}

/// The hunk a jump to the start or end of the current hunk goes to (see
/// [`hunk_edge_target_spec`]).
pub fn hunk_edge_target(
    bounds: &[Option<HunkBounds>],
    in_hunk_scope: bool,
    current_hunk: usize,
    scroll_offset: usize,
) -> (r: Option<(usize, HunkBounds)>)
    ensures
        r == hunk_edge_target_spec(bounds@, in_hunk_scope, current_hunk, scroll_offset),
{
    let h = if in_hunk_scope {
        Some(current_hunk)
    } else {
        current_hunk_from_bounds(bounds, scroll_offset)
    };
    proof {
        lemma_hunk_at_scroll(bounds@, scroll_offset);
        lemma_first_bounds(bounds@);
    }
    if let Some(i) = h {
        if i < bounds.len() {
            if let Some(b) = bounds[i] {
                return Some((i, b));
            }
        }
    }
    first_available_hunk(bounds)
}

/// For each hunk, its bounds in the split pane whose first row is nearer
/// the scroll offset.
pub fn effective_split_bounds(
    old_bounds: &[Option<HunkBounds>],
    new_bounds: &[Option<HunkBounds>],
    scroll_offset: usize,
) -> (r: Vec<Option<HunkBounds>>)
    requires
        forall|j: int| 0 <= j < old_bounds.len() ==> (#[trigger] old_bounds@[j] matches Some(o) ==> o.start.idx <= isize::MAX),
        forall|j: int| 0 <= j < new_bounds.len() ==> (#[trigger] new_bounds@[j] matches Some(o) ==> o.start.idx <= isize::MAX),
        scroll_offset <= isize::MAX,
    ensures
        r.len() == if old_bounds.len() < new_bounds.len() {
            old_bounds.len()
        } else {
            new_bounds.len()
        },
        forall|j: int|
            0 <= j < r.len() ==> #[trigger] r@[j] == split_bounds_spec(old_bounds@[j], new_bounds@[j], scroll_offset),
{
    let n = if old_bounds.len() < new_bounds.len() {
        old_bounds.len()
    } else {
        new_bounds.len()
    };
    let mut out: Vec<Option<HunkBounds>> = Vec::new();
    let mut j: usize = 0;
    while j < n
        invariant
            0 <= j <= n,
            n <= old_bounds.len(),
            n <= new_bounds.len(),
            scroll_offset <= isize::MAX,
            forall|k: int| 0 <= k < old_bounds.len() ==> (#[trigger] old_bounds@[k] matches Some(o) ==> o.start.idx <= isize::MAX),
            forall|k: int| 0 <= k < new_bounds.len() ==> (#[trigger] new_bounds@[k] matches Some(o) ==> o.start.idx <= isize::MAX),
            out.len() == j,
            forall|k: int|
                0 <= k < j ==> #[trigger] out@[k] == split_bounds_spec(old_bounds@[k], new_bounds@[k], scroll_offset),
        decreases n - j,
    {
        out.push(crate::jump::pick_split_bounds(old_bounds[j], new_bounds[j], scroll_offset));
        j = j + 1;
    }
    out
}

/// Of a hunk's bounds in each split pane, those whose first row is nearer
/// the scroll offset.
pub open spec fn split_bounds_spec(old: Option<HunkBounds>, new: Option<HunkBounds>, scroll_offset: usize) -> Option<
    HunkBounds,
> {
    match (old, new) {
        (Some(o), Some(n)) => if crate::jump::distance(o.start.idx as int, scroll_offset as int)
            < crate::jump::distance(n.start.idx as int, scroll_offset as int) {
            Some(o)
        } else {
            Some(n)
        },
        (Some(o), None) => Some(o),
        (None, Some(n)) => Some(n),
        (None, None) => None,
    }
}

// ---------------------------------------------------------------------------
// Jumping between conflict markers.
// ---------------------------------------------------------------------------

/// Marker `i` is nearer the top than marker `j` (the earlier one on a tie).
pub open spec fn marker_before(ms: Seq<ConflictMarker>, i: int, j: int) -> bool {
    ms[i].display_idx < ms[j].display_idx || (ms[i].display_idx == ms[j].display_idx && i < j)
}

/// Marker `k` lies past row `start` in the direction of the jump.
pub open spec fn past_start(ms: Seq<ConflictMarker>, start: usize, forward: bool, k: int) -> bool {
    if forward {
        ms[k].display_idx > start
    } else {
        ms[k].display_idx < start
    }
}

/// Marker `a` is met before marker `b` when walking in the direction of the
/// jump.
pub open spec fn met_first(ms: Seq<ConflictMarker>, forward: bool, a: int, b: int) -> bool {
    if forward {
        marker_before(ms, a, b)
    } else {
        marker_before(ms, b, a)
    }
}

/// `r` is the marker a jump to the next (`forward`) or previous conflict
/// marker lands on from row `start`: the first marker below the row (the
/// last one above it), wrapping to the first (last) marker when there is
/// none; markers on the same row count in the order they were found.
pub open spec fn conflict_target_spec(ms: Seq<ConflictMarker>, start: usize, forward: bool, r: int) -> bool {
    &&& 0 <= r < ms.len()
    &&& if exists|k: int| 0 <= k < ms.len() && #[trigger] past_start(ms, start, forward, k) {
        &&& past_start(ms, start, forward, r)
        &&& forall|k: int|
            0 <= k < ms.len() && k != r && #[trigger] past_start(ms, start, forward, k) ==> met_first(
                ms,
                forward,
                r,
                k,
            )
    } else {
        forall|k: int| 0 <= k < ms.len() && k != r ==> #[trigger] met_first(ms, forward, r, k)
    }
}

/// Marker `k` takes part in the search: any marker, or only those past
/// `start` when `only_past` holds.
pub open spec fn eligible(ms: Seq<ConflictMarker>, start: usize, forward: bool, only_past: bool, k: int) -> bool {
    !only_past || past_start(ms, start, forward, k)
}

/// The index of the marker met first among the eligible ones.
fn first_met(markers: &[ConflictMarker], start: usize, forward: bool, only_past: bool) -> (r: Option<usize>)
    ensures
        match r {
            Some(c) => {
                &&& c < markers.len()
                &&& eligible(markers@, start, forward, only_past, c as int)
                &&& forall|k: int|
                    #![trigger met_first(markers@, forward, c as int, k)]
                    0 <= k < markers.len() && k != c && eligible(markers@, start, forward, only_past, k)
                        ==> met_first(markers@, forward, c as int, k)
            },
            None => forall|k: int|
                0 <= k < markers.len() ==> !#[trigger] eligible(markers@, start, forward, only_past, k),
        },
{
    let ghost ms = markers@;
    let mut best: Option<usize> = None;
    let mut i: usize = 0;
    while i < markers.len()
        invariant
            0 <= i <= markers.len(),
            ms == markers@,
            match best {
                Some(c) => {
                    &&& c < i
                    &&& eligible(ms, start, forward, only_past, c as int)
                    &&& forall|k: int|
                        #![trigger met_first(ms, forward, c as int, k)]
                        0 <= k < i && k != c && eligible(ms, start, forward, only_past, k) ==> met_first(
                            ms,
                            forward,
                            c as int,
                            k,
                        )
                },
                None => forall|k: int| 0 <= k < i ==> !#[trigger] eligible(ms, start, forward, only_past, k),
            },
        decreases markers.len() - i,
    {
        let d = markers[i].display_idx;
        let ok = !only_past || (if forward {
            d > start
        } else {
            d < start
        });
        assert(ok == eligible(ms, start, forward, only_past, i as int));
        if ok {
            match best {
                None => {
                    best = Some(i);
                },
                Some(c) => {
                    let cd = markers[c].display_idx;
                    let better = if forward {
                        d < cd
                    } else {
                        d >= cd
                    };
                    if better {
                        best = Some(i);
                        assert forall|k: int|
                            #![trigger met_first(ms, forward, i as int, k)]
                            0 <= k < i + 1 && k != i && eligible(ms, start, forward, only_past, k) implies met_first(
                                ms,
                                forward,
                                i as int,
                                k,
                            ) by {
                            if k != c {
                                assert(met_first(ms, forward, c as int, k));
                            }
                        }
                    } else {
                        assert(met_first(ms, forward, c as int, i as int));
                    }
                },
            }
        }
        i = i + 1;
    }
    best
}

/// The conflict marker a jump lands on (see [`conflict_target_spec`]).
pub fn conflict_target(markers: &[ConflictMarker], start: usize, forward: bool) -> (r: ConflictMarker)
    requires
        markers.len() > 0,
    ensures
        exists|i: int| conflict_target_spec(markers@, start, forward, i) && r == markers@[i],
{
    let ghost ms = markers@;
    let pick = match first_met(markers, start, forward, true) {
        Some(c) => {
            assert(past_start(ms, start, forward, c as int));
            assert forall|k: int|
                0 <= k < ms.len() && k != c && #[trigger] past_start(ms, start, forward, k) implies met_first(
                ms,
                forward,
                c as int,
                k,
            ) by {
                assert(eligible(ms, start, forward, true, k));
            }
            c
        },
        None => {
            assert forall|k: int| 0 <= k < ms.len() implies !#[trigger] past_start(ms, start, forward, k) by {
                assert(!eligible(ms, start, forward, true, k));
            }
            match first_met(markers, start, forward, false) {
                Some(c) => {
                    assert forall|k: int|
                        0 <= k < ms.len() && k != c implies #[trigger] met_first(ms, forward, c as int, k) by {
                        assert(eligible(ms, start, forward, false, k));
                    }
                    c
                },
                None => {
                    assert(!eligible(ms, start, forward, false, 0));
                    0
                },
            }
        },
    };
    assert(conflict_target_spec(ms, start, forward, pick as int));
    markers[pick]
}

/// `v` lies past step `current` in the direction of the jump.
pub open spec fn step_past(v: usize, current: usize, forward: bool) -> bool {
    if forward {
        v > current
    } else {
        v < current
    }
}

/// `a` is met no later than `b` when walking steps in the direction of the
/// jump.
pub open spec fn step_no_later(a: usize, b: usize, forward: bool) -> bool {
    if forward {
        a <= b
    } else {
        a >= b
    }
}

/// `r` is the step a jump to the next (`forward`) or previous conflict step
/// lands on from step `current`: the nearest listed step past it, wrapping to
/// the smallest (largest) listed step when none is past it.
pub open spec fn conflict_step_spec(steps: Seq<usize>, current: usize, forward: bool, r: usize) -> bool {
    &&& steps.contains(r)
    &&& if exists|k: int| 0 <= k < steps.len() && #[trigger] step_past(steps[k], current, forward) {
        &&& step_past(r, current, forward)
        &&& forall|k: int|
            0 <= k < steps.len() && #[trigger] step_past(steps[k], current, forward) ==> step_no_later(
                r,
                steps[k],
                forward,
            )
    } else {
        forall|k: int| 0 <= k < steps.len() ==> #[trigger] step_no_later(r, steps[k], forward)
    }
}

/// The step that a jump between conflicts lands on while stepping (see
/// [`conflict_step_spec`]).
pub fn conflict_step_target(steps: &[usize], current: usize, forward: bool) -> (r: usize)
    requires
        steps.len() > 0,
    ensures
        conflict_step_spec(steps@, current, forward, r),
{
    let ghost ss = steps@;
    let mut wrap: usize = steps[0];
    let mut past: Option<usize> = None;
    let mut i: usize = 0;
    while i < steps.len()
        invariant
            0 <= i <= steps.len(),
            ss == steps@,
            ss.len() > 0,
            ss.contains(wrap),
            forall|k: int| 0 <= k < i ==> #[trigger] step_no_later(wrap, ss[k], forward),
            match past {
                Some(p) => {
                    &&& ss.contains(p)
                    &&& step_past(p, current, forward)
                    &&& forall|k: int|
                        0 <= k < i && #[trigger] step_past(ss[k], current, forward) ==> step_no_later(
                            p,
                            ss[k],
                            forward,
                        )
                },
                None => forall|k: int| 0 <= k < i ==> !#[trigger] step_past(ss[k], current, forward),
            },
        decreases steps.len() - i,
    {
        let v = steps[i];
        let earlier = if forward {
            v < wrap
        } else {
            v > wrap
        };
        if earlier {
            let ghost prev = wrap;
            wrap = v;
            assert forall|k: int| 0 <= k < i implies #[trigger] step_no_later(wrap, ss[k], forward) by {
                assert(step_no_later(prev, ss[k], forward));
            }
        }
        let beyond = if forward {
            v > current
        } else {
            v < current
        };
        if beyond {
            let take = match past {
                None => true,
                Some(p) => if forward {
                    v < p
                } else {
                    v > p
                },
            };
            if take {
                past = Some(v);
            }
        }
        i = i + 1;
    }
    match past {
        Some(p) => p,
        None => wrap,
    }
}

/// The last present hunk before `n` is `h` when `h` is present and nothing
/// between them is.
proof fn lemma_last_present_gap(starts: Seq<Option<HunkStart>>, h: int, n: int)
    requires
        0 <= h < n <= starts.len(),
        starts[h] is Some,
        forall|j: int| h < j < n ==> starts[j] is None,
    ensures
        last_present(starts.take(n)) == Some(h),
    decreases n - h,
{
    let t = starts.take(n);
    assert(t.last() == starts[n - 1]);
    if n - 1 > h {
        assert(t.drop_last() =~= starts.take(n - 1));
        lemma_last_present_gap(starts, h, n - 1);
    }
}

/// Moving by hunks from a hunk that has rows to the next one and back to
/// the previous one returns to the hunk it started from.
pub proof fn law_next_then_prev_hunk(starts: Seq<Option<HunkStart>>, h: int)
    requires
        0 <= h < starts.len(),
        starts[h] is Some,
        first_from(starts, h + 1) is Some,
    ensures
        ({
            let n = first_from(starts, h + 1)->0;
            last_present(starts.take(if n < starts.len() - 1 { n } else { starts.len() - 1 })) == Some(h)
        }),
{
    lemma_first_from(starts, h + 1);
    let n = first_from(starts, h + 1)->0;
    lemma_last_present_gap(starts, h, n);
}

/// From a conflict step with a later one, jumping to the next conflict and
/// back to the previous one returns to the step it started from.
pub proof fn law_conflict_step_next_then_prev(steps: Seq<usize>, c: usize, r1: usize, r2: usize)
    requires
        steps.contains(c),
        exists|k: int| 0 <= k < steps.len() && steps[k] > c,
        conflict_step_spec(steps, c, true, r1),
        conflict_step_spec(steps, r1, false, r2),
    ensures
        r2 == c,
{
    let kc = choose|k: int| 0 <= k < steps.len() && steps[k] == c;
    let kl = choose|k: int| 0 <= k < steps.len() && steps[k] > c;
    assert(step_past(steps[kl], c, true));
    assert(r1 > c);
    assert(step_past(steps[kc], r1, false));
    assert(r2 < r1);
    assert(step_no_later(r2, steps[kc], false));
    let k2 = choose|k: int| 0 <= k < steps.len() && steps[k] == r2;
    if r2 > c {
        assert(step_past(steps[k2], c, true));
        assert(step_no_later(r1, steps[k2], true));
    }
}

// ---------------------------------------------------------------------------
// Placing the cursor at the scroll position.
// ---------------------------------------------------------------------------

/// Where the cursor goes when it follows the scroll position.
#[derive(Debug, Clone, Copy, PartialEq, Eq, Structural)]
pub enum ScrollCursor {
    /// Onto a change of a hunk.
    Hunk { hunk: usize, change_id: usize },
    /// Onto a change outside every hunk.
    Change(usize),
    /// Nowhere: the scroll position is past the last row.
    Clear,
}

/// The cursor for the line on row `target` of the unified, evolution or
/// blame view.
pub open spec fn scroll_cursor_spec(view: Seq<ViewLine>, view_mode: ViewMode, target: usize) -> ScrollCursor {
    let rows = pane_lines(view, unified_pane(view_mode));
    if target < rows.len() {
        let l = rows[target as int];
        match l.hunk_index {
            Some(h) => ScrollCursor::Hunk { hunk: h, change_id: l.change_id },
            None => ScrollCursor::Change(l.change_id),
        }
    } else {
        ScrollCursor::Clear
    }
}

proof fn lemma_pane_lines_prefix(view: Seq<ViewLine>, pane: Pane, i: int, n: int)
    requires
        0 <= i <= n <= view.len(),
    ensures
        pane_lines(view.take(i), pane).len() <= pane_lines(view.take(n), pane).len(),
        forall|j: int|
            0 <= j < pane_lines(view.take(i), pane).len() ==> #[trigger] pane_lines(view.take(n), pane)[j]
                == pane_lines(view.take(i), pane)[j],
    decreases n - i,
{
    if i < n {
        lemma_pane_lines_prefix(view, pane, i, n - 1);
        assert(view.take(n).drop_last() =~= view.take(n - 1));
    }
}

/// The cursor that follows the scroll position `target` (see
/// [`scroll_cursor_spec`]).
pub fn scroll_cursor_target(view: &[ViewLine], view_mode: ViewMode, target: usize) -> (r: ScrollCursor)
    ensures
        r == scroll_cursor_spec(view@, view_mode, target),
{
    let pane = Pane::Unified { evolution: matches!(view_mode, ViewMode::Evolution) };
    let ghost rows = pane_lines(view@, pane);
    let mut display_idx: usize = 0;
    let mut i: usize = 0;
    assert(view@.take(0) =~= Seq::<ViewLine>::empty());
    while i < view.len()
        invariant
            0 <= i <= view.len(),
            pane == unified_pane(view_mode),
            rows == pane_lines(view@, pane),
            display_idx <= i,
            display_idx == pane_lines(view@.take(i as int), pane).len(),
            display_idx <= target,
        decreases view.len() - i,
    {
        assert(view@.take(i + 1).drop_last() =~= view@.take(i as int));
        assert(view@.take(i + 1).last() == view@[i as int]);
        let line = &view[i];
        if line_in_pane(line, pane) {
            if display_idx >= target {
                proof {
                    lemma_pane_lines_prefix(view@, pane, i + 1, view.len() as int);
                    assert(view@.take(view.len() as int) =~= view@);
                    assert(pane_lines(view@.take(i + 1), pane)[display_idx as int] == *line);
                }
                return match line.hunk_index {
                    Some(h) => ScrollCursor::Hunk { hunk: h, change_id: line.change_id },
                    None => ScrollCursor::Change(line.change_id),
                };
            }
            display_idx = display_idx + 1;
        }
        i = i + 1;
    }
    assert(view@.take(view.len() as int) =~= view@);
    ScrollCursor::Clear
}

// ---------------------------------------------------------------------------
// Steps that bring in a merge conflict.
// ---------------------------------------------------------------------------

/// A line of the change's old or modified text starts a conflict marker.
pub open spec fn change_marks_conflict(c: ChangeModel) -> bool {
    text_has_marker(change_text(c.spans, ChangeTextKind::Old)) || text_has_marker(
        change_text(c.spans, ChangeTextKind::Modified),
    )
}

/// The step numbers (one past the position in the list of significant
/// changes) whose change marks a conflict, in order; ids that name no
/// change are passed over.
pub open spec fn conflict_steps_spec(cs: Seq<ChangeModel>, sig: Seq<usize>) -> Seq<usize>
    decreases sig.len(),
{
    if sig.len() == 0 {
        Seq::empty()
    } else {
        let prev = conflict_steps_spec(cs, sig.drop_last());
        match change_by_id(cs, sig.last()) {
            Some(c) => if change_marks_conflict(c) {
                prev.push(sig.len() as usize)
            } else {
                prev
            },
            None => prev,
        }
    }
}

/// The steps of the diff whose change marks a conflict (see
/// [`conflict_steps_spec`]).
pub fn collect_conflict_steps(nav: &DiffNavigator) -> (r: Vec<usize>)
    ensures
        r@ == conflict_steps_spec(nav@.diff.changes, nav@.diff.significant_changes),
{
    let diff = nav.diff();
    let ghost cs = nav@.diff.changes;
    let ghost sig = nav@.diff.significant_changes;
    let mut out: Vec<usize> = Vec::new();
    let mut idx: usize = 0;
    assert(sig.take(0) =~= Seq::<usize>::empty());
    while idx < diff.significant_changes.len()
        invariant
            0 <= idx <= diff.significant_changes.len(),
            sig == diff.significant_changes@,
            cs == nav@.diff.changes,
            cs == crate::diff::changes_view(diff.changes@),
            out@ == conflict_steps_spec(cs, sig.take(idx as int)),
        decreases diff.significant_changes.len() - idx,
    {
        let change_id = diff.significant_changes[idx];
        assert(sig.take(idx + 1).drop_last() =~= sig.take(idx as int));
        assert(sig.take(idx + 1).last() == change_id);
        match nav.change_index_for(change_id) {
            Some(k) => {
                proof {
                    crate::diff::lemma_change_index(cs, change_id);
                }
                let change = &diff.changes[k];
                assert(change@ == cs[k as int]);
                assert(change_by_id(cs, change_id) == Some(change@));
                if change_has_conflict_marker(change) {
                    out.push(idx + 1);
                }
            },
            None => {},
        }
        idx = idx + 1;
    }
    assert(sig.take(idx as int) =~= sig);
    out
}

} // verus!
