//! Jumping to a line number: which display row a line number lands on in
//! each view mode, and where the view scrolls to show it.

use vstd::prelude::*;
use crate::hunks::{HunkBounds, Pane, in_pane, pane_lines};
use crate::types::ViewMode;
use crate::view::{LineKind, ViewLine};
use crate::view_metrics::is_fold_line;

verus! {

/// `|a - b|`.
pub open spec fn distance(a: int, b: int) -> int {
    if a >= b {
        a - b
    } else {
        b - a
    }
}

/// Of a row in the old pane and a row in the new pane, the one nearer the
/// scroll offset (the new one on a tie); either one when the other is
/// missing.
pub open spec fn pick_split_spec(old: Option<usize>, new: Option<usize>, scroll_offset: usize) -> Option<
    usize,
> {
    match (old, new) {
        (Some(o), Some(n)) => if distance(o as int, scroll_offset as int) < distance(
            n as int,
            scroll_offset as int,
        ) {
            Some(o)
        } else {
            Some(n)
        },
        (Some(o), None) => Some(o),
        (None, Some(n)) => Some(n),
        (None, None) => None,
    }
}

fn usize_distance(a: usize, b: usize) -> (r: usize)
    ensures
        r == distance(a as int, b as int),
{
    if a >= b {
        a - b
    } else {
        b - a
    }
}

/// Of a row in each pane of the split view, the one nearer the scroll offset.
pub fn pick_split_index(old: Option<usize>, new: Option<usize>, scroll_offset: usize) -> (r: Option<
    usize,
>)
    requires
        old matches Some(o) ==> o <= isize::MAX,
        new matches Some(n) ==> n <= isize::MAX,
        scroll_offset <= isize::MAX,
    ensures
        r == pick_split_spec(old, new, scroll_offset),
{
    match (old, new) {
        (Some(o), Some(n)) => {
            if usize_distance(o, scroll_offset) < usize_distance(n, scroll_offset) {
                Some(o)
            } else {
                Some(n)
            }
        },
        (Some(o), None) => Some(o),
        (None, Some(n)) => Some(n),
        (None, None) => None,
    }
}

/// Of a hunk's bounds in each pane of the split view, the one whose first
/// row is nearer the scroll offset.
pub fn pick_split_bounds(old: Option<HunkBounds>, new: Option<HunkBounds>, scroll_offset: usize) -> (r:
    Option<HunkBounds>)
    requires
        old matches Some(o) ==> o.start.idx <= isize::MAX,
        new matches Some(n) ==> n.start.idx <= isize::MAX,
        scroll_offset <= isize::MAX,
    ensures
        r == match (old, new) {
            (Some(o), Some(n)) => if distance(o.start.idx as int, scroll_offset as int) < distance(
                n.start.idx as int,
                scroll_offset as int,
            ) {
                Some(o)
            } else {
                Some(n)
            },
            (Some(o), None) => Some(o),
            (None, Some(n)) => Some(n),
            (None, None) => None,
        },
{
    match (old, new) {
        (Some(o), Some(n)) => {
            if usize_distance(o.start.idx, scroll_offset) < usize_distance(n.start.idx, scroll_offset) {
                Some(o)
            } else {
                Some(n)
            }
        },
        (Some(o), None) => Some(o),
        (None, Some(n)) => Some(n),
        (None, None) => None,
    }
}

// ---------------------------------------------------------------------------
// Single-pane views.
// ---------------------------------------------------------------------------

/// The line number a row shows: the old number first in the unified and
/// blame views, the new number first in the evolution view.
pub open spec fn row_number(l: ViewLine, evolution: bool) -> Option<usize> {
    if evolution {
        match l.new_line {
            Some(n) => Some(n),
            None => l.old_line,
        }
    } else {
        match l.old_line {
            Some(n) => Some(n),
            None => l.new_line,
        }
    }
}

/// The first row showing line number `n`.
pub open spec fn first_row_with(rows: Seq<ViewLine>, n: usize, evolution: bool) -> Option<int>
    decreases rows.len(),
{
    if rows.len() == 0 {
        None
    } else {
        match first_row_with(rows.drop_last(), n, evolution) {
            Some(k) => Some(k),
            None => if row_number(rows.last(), evolution) == Some(n) {
                Some(rows.len() - 1)
            } else {
                None
            },
        }
    }
}

/// The largest line number the rows show (0 when none).
pub open spec fn max_row_number(rows: Seq<ViewLine>, evolution: bool) -> nat
    decreases rows.len(),
{
    if rows.len() == 0 {
        0
    } else {
        let m = max_row_number(rows.drop_last(), evolution);
        match row_number(rows.last(), evolution) {
            Some(x) => if x > m {
                x as nat
            } else {
                m
            },
            None => m,
        }
    }
}

/// Where line number `n` lands in a single-pane view: the rows are scanned
/// up to the first one showing it; line 0 is the top row; a number past the
/// largest scanned number is the last row scanned before; otherwise the row
/// showing it, if any.
pub open spec fn single_pane_target(rows: Seq<ViewLine>, n: usize, evolution: bool) -> Option<int> {
    let found = first_row_with(rows, n, evolution);
    let scanned = match found {
        Some(k) => rows.take(k + 1),
        None => rows,
    };
    let last: Option<int> = match found {
        Some(k) => if k > 0 {
            Some(k - 1)
        } else {
            None
        },
        None => if rows.len() > 0 {
            Some(rows.len() - 1)
        } else {
            None
        },
    };
    let max_line = max_row_number(scanned, evolution);
    if n == 0 {
        match last {
            Some(_) => Some(0),
            None => None,
        }
    } else if max_line > 0 && n > max_line {
        last
    } else {
        found
    }
}

// ---------------------------------------------------------------------------
// The split view.
// ---------------------------------------------------------------------------

/// The last row of a pane whose line number on that side is `n`.
pub open spec fn last_row_with(rows: Seq<ViewLine>, n: usize, old_side: bool) -> Option<int>
    decreases rows.len(),
{
    if rows.len() == 0 {
        None
    } else if (if old_side {
        rows.last().old_line
    } else {
        rows.last().new_line
    }) == Some(n) {
        Some(rows.len() - 1)
    } else {
        last_row_with(rows.drop_last(), n, old_side)
    }
}

/// The largest line number of one side in its pane (0 when none).
pub open spec fn max_side_number(rows: Seq<ViewLine>, old_side: bool) -> nat
    decreases rows.len(),
{
    if rows.len() == 0 {
        0
    } else {
        let m = max_side_number(rows.drop_last(), old_side);
        match (if old_side {
            rows.last().old_line
        } else {
            rows.last().new_line
        }) {
            Some(x) => if x > m {
                x as nat
            } else {
                m
            },
            None => m,
        }
    }
}

/// The last row of a pane, if any.
pub open spec fn last_row(rows: Seq<ViewLine>) -> Option<usize> {
    if rows.len() > 0 {
        Some((rows.len() - 1) as usize)
    } else {
        None
    }
}

/// Where line number `n` lands in the split view: line 0 is the top row of
/// a pane; a number past every number of both sides is the last row of the
/// pane with the larger numbers (of the nearer pane on a tie); otherwise
/// the last row showing it in either pane, the nearer one when both do.
pub open spec fn split_target(view: Seq<ViewLine>, n: usize, scroll_offset: usize) -> Option<usize> {
    let o = pane_lines(view, Pane::Old);
    let w = pane_lines(view, Pane::New);
    if n == 0 {
        pick_split_spec(
            if o.len() > 0 {
                Some(0usize)
            } else {
                None
            },
            if w.len() > 0 {
                Some(0usize)
            } else {
                None
            },
            scroll_offset,
        )
    } else {
        let om = max_side_number(o, true);
        let nm = max_side_number(w, false);
        let max_line = if om > nm {
            om
        } else {
            nm
        };
        if max_line > 0 && n > max_line {
            if om > nm {
                last_row(o)
            } else if nm > om {
                last_row(w)
            } else {
                pick_split_spec(last_row(o), last_row(w), scroll_offset)
            }
        } else {
            pick_split_spec(
                match last_row_with(o, n, true) {
                    Some(k) => Some(k as usize),
                    None => None,
                },
                match last_row_with(w, n, false) {
                    Some(k) => Some(k as usize),
                    None => None,
                },
                scroll_offset,
            )
        }
    }
}

/// The display row that a jump to line number `n` lands on.
pub open spec fn goto_target_spec(
    view: Seq<ViewLine>,
    mode: ViewMode,
    n: usize,
    scroll_offset: usize,
) -> Option<usize> {
    match mode {
        ViewMode::Split => split_target(view, n, scroll_offset),
        ViewMode::Evolution => match single_pane_target(
            pane_lines(view, Pane::Unified { evolution: true }),
            n,
            true,
        ) {
            Some(k) => Some(k as usize),
            None => None,
        },
        _ => match single_pane_target(view, n, false) {
            Some(k) => Some(k as usize),
            None => None,
        },
    }
}

proof fn lemma_pane_len(view: Seq<ViewLine>, pane: Pane)
    ensures
        pane_lines(view, pane).len() <= view.len(),
    decreases view.len(),
{
    if view.len() > 0 {
        lemma_pane_len(view.drop_last(), pane);
    }
}

fn row_number_of(line: &ViewLine, evolution: bool) -> (r: Option<usize>)
    ensures
        r == row_number(*line, evolution),
{
    if evolution {
        match line.new_line {
            Some(n) => Some(n),
            None => line.old_line,
        }
    } else {
        match line.old_line {
            Some(n) => Some(n),
            None => line.new_line,
        }
    }
}

fn single_pane_goto(view: &[ViewLine], evolution: bool, n: usize) -> (r: Option<usize>)
    requires
        view.len() <= isize::MAX,
    ensures
        r == match single_pane_target(pane_lines(view@, Pane::Unified { evolution }), n, evolution) {
            Some(k) => Some(k as usize),
            None => None,
        },
        r matches Some(k) ==> k < view.len(),
{
    let pane = Pane::Unified { evolution };
    let mut found: Option<usize> = None;
    let mut max_line: usize = 0;
    let mut rows: usize = 0;
    let mut i: usize = 0;
    assert(view@.take(0) =~= Seq::<ViewLine>::empty());
    while i < view.len()
        invariant
            0 <= i <= view.len(),
            rows <= i,
            pane == (Pane::Unified { evolution }),
            ({
                let p = pane_lines(view@.take(i as int), pane);
                &&& rows == p.len()
                &&& match found {
                    Some(k) => first_row_with(p, n, evolution) == Some(k as int) && k < rows,
                    None => first_row_with(p, n, evolution) is None,
                }
                &&& max_line == max_row_number(
                    match found {
                        Some(k) => p.take(k + 1),
                        None => p,
                    },
                    evolution,
                )
            }),
        decreases view.len() - i,
    {
        let ghost p = pane_lines(view@.take(i as int), pane);
        assert(view@.take(i + 1).drop_last() =~= view@.take(i as int));
        assert(view@.take(i + 1).last() == view@[i as int]);
        let line = &view[i];
        let visible = !evolution || !matches!(line.kind, LineKind::Deleted | LineKind::PendingDelete);
        assert(visible == in_pane(*line, pane));
        if visible {
            let ghost p2 = p.push(*line);
            assert(pane_lines(view@.take(i + 1), pane) == p2);
            assert(p2.drop_last() =~= p);
            if found.is_none() {
                let num = row_number_of(line, evolution);
                match num {
                    Some(x) => {
                        if x > max_line {
                            max_line = x;
                        }
                    },
                    None => {},
                }
                if num == Some(n) {
                    found = Some(rows);
                    assert(p2.take(rows + 1) =~= p2);
                }
            } else {
                let k = found.unwrap();
                assert(p2.take(k + 1) =~= p.take(k + 1));
            }
            rows = rows + 1;
        } else {
            assert(pane_lines(view@.take(i + 1), pane) == p);
        }
        i = i + 1;
    }
    assert(view@.take(view.len() as int) =~= view@);
    proof {
        lemma_pane_len(view@, pane);
    }
    let last: Option<usize> = match found {
        Some(k) => if k > 0 {
            Some(k - 1)
        } else {
            None
        },
        None => if rows > 0 {
            Some(rows - 1)
        } else {
            None
        },
    };
    if n == 0 {
        match last {
            Some(_) => Some(0),
            None => None,
        }
    } else if max_line > 0 && n > max_line {
        last
    } else {
        found
    }
}

fn split_goto(view: &[ViewLine], n: usize, scroll_offset: usize) -> (r: Option<usize>)
    requires
        view.len() <= isize::MAX,
        scroll_offset <= isize::MAX,
    ensures
        r == split_target(view@, n, scroll_offset),
        r matches Some(k) ==> k < view.len(),
{
    let mut old_idx: usize = 0;
    let mut new_idx: usize = 0;
    let mut old_max: usize = 0;
    let mut new_max: usize = 0;
    let mut old_match: Option<usize> = None;
    let mut new_match: Option<usize> = None;
    let mut i: usize = 0;
    assert(view@.take(0) =~= Seq::<ViewLine>::empty());
    while i < view.len()
        invariant
            0 <= i <= view.len(),
            old_idx <= i,
            new_idx <= i,
            ({
                let o = pane_lines(view@.take(i as int), Pane::Old);
                let w = pane_lines(view@.take(i as int), Pane::New);
                &&& old_idx == o.len()
                &&& new_idx == w.len()
                &&& old_max == max_side_number(o, true)
                &&& new_max == max_side_number(w, false)
                &&& old_match == match last_row_with(o, n, true) {
                    Some(k) => Some(k as usize),
                    None => None,
                }
                &&& new_match == match last_row_with(w, n, false) {
                    Some(k) => Some(k as usize),
                    None => None,
                }
                &&& (old_match matches Some(k) ==> k < old_idx)
                &&& (new_match matches Some(k) ==> k < new_idx)
            }),
        decreases view.len() - i,
    {
        let ghost o = pane_lines(view@.take(i as int), Pane::Old);
        let ghost w = pane_lines(view@.take(i as int), Pane::New);
        assert(view@.take(i + 1).drop_last() =~= view@.take(i as int));
        assert(view@.take(i + 1).last() == view@[i as int]);
        let line = &view[i];
        let fold_line = is_fold_line(line);
        match line.old_line {
            Some(x) => {
                if x > old_max {
                    old_max = x;
                }
                if x == n {
                    old_match = Some(old_idx);
                }
                old_idx = old_idx + 1;
                assert(o.push(*line).drop_last() =~= o);
            },
            None => {
                if fold_line {
                    old_idx = old_idx + 1;
                    assert(o.push(*line).drop_last() =~= o);
                }
            },
        }
        match line.new_line {
            Some(x) => {
                if x > new_max {
                    new_max = x;
                }
                if x == n {
                    new_match = Some(new_idx);
                }
                new_idx = new_idx + 1;
                assert(w.push(*line).drop_last() =~= w);
            },
            None => {
                if fold_line {
                    new_idx = new_idx + 1;
                    assert(w.push(*line).drop_last() =~= w);
                }
            },
        }
        i = i + 1;
    }
    assert(view@.take(view.len() as int) =~= view@);
    proof {
        lemma_pane_len(view@, Pane::Old);
        lemma_pane_len(view@, Pane::New);
    }
    let old_last = if old_idx > 0 {
        Some(old_idx - 1)
    } else {
        None
    };
    let new_last = if new_idx > 0 {
        Some(new_idx - 1)
    } else {
        None
    };
    if n == 0 {
        let first_old = if old_idx > 0 {
            Some(0)
        } else {
            None
        };
        let first_new = if new_idx > 0 {
            Some(0)
        } else {
            None
        };
        pick_split_index(first_old, first_new, scroll_offset)
    } else {
        let max_line = if old_max > new_max {
            old_max
        } else {
            new_max
        };
        if max_line > 0 && n > max_line {
            if old_max > new_max {
                old_last
            } else if new_max > old_max {
                new_last
            } else {
                pick_split_index(old_last, new_last, scroll_offset)
            }
        } else {
            pick_split_index(old_match, new_match, scroll_offset)
        }
    }
}

/// The display row that a jump to line number `line_number` lands on (see
/// [`goto_target_spec`]).
pub fn goto_line_target(
    view: &[ViewLine],
    view_mode: ViewMode,
    line_number: usize,
    scroll_offset: usize,
) -> (r: Option<usize>)
    requires
        view.len() <= isize::MAX,
        scroll_offset <= isize::MAX,
    ensures
        r == goto_target_spec(view@, view_mode, line_number, scroll_offset),
{
    match view_mode {
        ViewMode::Split => split_goto(view, line_number, scroll_offset),
        ViewMode::Evolution => single_pane_goto(view, true, line_number),
        _ => {
            let r = single_pane_goto(view, false, line_number);
            proof {
                lemma_unified_pane_is_view(view@);
            }
            r
        },
    }
}

proof fn lemma_unified_pane_is_view(view: Seq<ViewLine>)
    ensures
        pane_lines(view, Pane::Unified { evolution: false }) == view,
    decreases view.len(),
{
    if view.len() > 0 {
        lemma_unified_pane_is_view(view.drop_last());
        assert(view.drop_last().push(view.last()) =~= view);
    }
}

/// The scroll offset that shows row `idx`: centred in the viewport when
/// auto-centring is on (a viewport of at least one row), else at the top.
pub fn goto_scroll_offset(idx: usize, viewport_height: usize, auto_center: bool) -> (r: usize)
    ensures
        r == if auto_center {
            let half = (if viewport_height > 1 {
                viewport_height
            } else {
                1
            }) / 2;
            if idx >= half {
                (idx - half) as usize
            } else {
                0
            }
        } else {
            idx
        },
{
    if auto_center {
        let height = if viewport_height > 1 {
            viewport_height
        } else {
            1
        };
        let half = height / 2;
        if idx >= half {
            idx - half
        } else {
            0
        }
    } else {
        idx
    }
}

} // verus!
