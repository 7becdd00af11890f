//! Scrolling decisions of the diff view: the window of rows that a large
//! file renders, keeping the active change on screen, and centring on it.

use vstd::prelude::*;
use crate::types::{StepDirection, ViewMode};
use crate::view_metrics::{max_scroll, sat_sub};

verus! {

/// The rows of a large file that are rendered: `start..=end` of `total_len`.
#[derive(Debug, Clone, Copy, PartialEq, Eq, Structural)]
pub struct ViewWindow {
    pub start: usize,
    pub end: usize,
    pub total_len: usize,
}

/// What the window of a large file is decided from.
#[derive(Debug, Clone, Copy, PartialEq, Eq, Structural)]
pub struct WindowRequest {
    pub line_wrap: bool,
    pub file_is_large: bool,
    pub view_mode: ViewMode,
    pub split_align_lines: bool,
    pub fold_enabled: bool,
    pub allow_overscroll: bool,
    /// Number of changes of the file.
    pub total_len: usize,
    /// Height of the viewport last drawn.
    pub viewport_height: usize,
    pub scroll_offset: usize,
    pub stepping: bool,
    /// Index of the change the window follows while stepping: the active
    /// change, else the last applied one, else the first significant one.
    pub active_index: Option<usize>,
    pub needs_scroll_to_active: bool,
    /// Start of the current window, when there is one.
    pub current_start: Option<usize>,
}

/// `a * b`, or the largest `usize` when that overflows.
pub open spec fn sat_mul(a: usize, b: usize) -> usize {
    if a * b > usize::MAX {
        usize::MAX
    } else {
        (a * b) as usize
    }
}

/// `a + b`, or the largest `usize` when that overflows.
pub open spec fn sat_add(a: usize, b: usize) -> usize {
    if a + b > usize::MAX {
        usize::MAX
    } else {
        (a + b) as usize
    }
}

/// `max(a, b)`.
pub open spec fn umax(a: usize, b: usize) -> usize {
    if a > b {
        a
    } else {
        b
    }
}

/// `min(a, b)`.
pub open spec fn umin(a: int, b: int) -> int {
    if a < b {
        a
    } else {
        b
    }
}

/// How many rows a window spans: four viewports of at least twenty rows,
/// and at least two hundred.
pub open spec fn window_span(viewport_height: usize) -> usize {
    umax(sat_mul(umax(viewport_height, 20), 4), 200)
}

/// The largest scroll offset (see [`max_scroll`]).
pub open spec fn max_scroll_value(total_lines: usize, viewport_height: usize, allow_overscroll: bool) -> usize {
    (if allow_overscroll {
        sat_sub(sat_sub(total_lines as int, 1), viewport_height as int / 2)
    } else {
        sat_sub(total_lines as int, viewport_height as int)
    }) as usize
}

/// The scroll offset kept inside the scroll range.
pub open spec fn clamped_scroll(q: WindowRequest) -> usize {
    let m = if q.total_len > 0 {
        max_scroll_value(q.total_len, umax(q.viewport_height, 1), q.allow_overscroll)
    } else {
        0
    };
    if q.total_len > 0 && q.scroll_offset > m {
        m
    } else {
        q.scroll_offset
    }
}

/// The window that a large file renders, and the scroll offset clamped to
/// its range: none when lines wrap, the file is not large, the view mode
/// does not window (only the unified and blame views do, and the split view
/// with aligned lines and no folding) or there are no changes. While
/// stepping the window spans `span` rows on each side of the followed change
/// unless the scroll position left it (then it starts `span / 4` rows above
/// the scroll position); otherwise all rows when they fit, else `span` rows
/// from `span / 4` above the scroll position, kept while the scroll position
/// stays inside the current window.
pub open spec fn view_window_spec(q: WindowRequest) -> (usize, Option<ViewWindow>) {
    let windows = q.view_mode == ViewMode::UnifiedPane || q.view_mode == ViewMode::Blame || (q.view_mode
        == ViewMode::Split && q.split_align_lines && !q.fold_enabled);
    if q.line_wrap || !q.file_is_large || !windows || q.total_len == 0 {
        (q.scroll_offset, None)
    } else {
        let scroll0 = clamped_scroll(q);
        let span = window_span(q.viewport_height);
        let margin = span / 4;
        let last = (q.total_len - 1) as int;
        let scroll = umin(scroll0 as int, last) as usize;
        if q.stepping {
            match q.active_index {
                None => (scroll0, None),
                Some(idx) => {
                    let start = sat_sub(idx as int, span as int) as usize;
                    let end = umin(idx + span, last) as usize;
                    let inside = scroll >= sat_add(start, margin) && scroll <= sat_sub(
                        end as int,
                        margin as int,
                    );
                    if !q.needs_scroll_to_active && !inside {
                        let s2 = sat_sub(scroll as int, margin as int) as usize;
                        (scroll0, Some(ViewWindow { start: s2, end: umin(s2 + span, last) as usize, total_len: q.total_len }))
                    } else {
                        (scroll0, Some(ViewWindow { start, end, total_len: q.total_len }))
                    }
                },
            }
        } else if q.total_len <= span {
            (scroll0, Some(ViewWindow { start: 0, end: last as usize, total_len: q.total_len }))
        } else {
            let start = sat_sub(scroll as int, margin as int) as usize;
            let end = umin(start + span, last) as usize;
            match q.current_start {
                Some(cs) => {
                    let ce = umin(cs + span, last) as usize;
                    if scroll >= sat_add(cs, margin) && scroll <= sat_sub(ce as int, margin as int) {
                        (scroll0, Some(ViewWindow { start: cs, end: ce, total_len: q.total_len }))
                    } else {
                        (scroll0, Some(ViewWindow { start, end, total_len: q.total_len }))
                    }
                },
                None => (scroll0, Some(ViewWindow { start, end, total_len: q.total_len })),
            }
        }
    }
}

fn umax_exec(a: usize, b: usize) -> (r: usize)
    ensures
        r == umax(a, b),
{
    if a > b {
        a
    } else {
        b
    }
}

pub(crate) fn span_of(viewport_height: usize) -> (r: usize)
    ensures
        r == window_span(viewport_height),
{
    let h = umax_exec(viewport_height, 20);
    let m = h.checked_mul(4);
    let t = match m {
        Some(v) => v,
        None => usize::MAX,
    };
    umax_exec(t, 200)
}

/// The window that a large file renders and the clamped scroll offset (see
/// [`view_window_spec`]).
pub fn compute_view_window(q: &WindowRequest) -> (r: (usize, Option<ViewWindow>))
    requires
        q.total_len + window_span(q.viewport_height) <= usize::MAX,
        q.current_start matches Some(cs) ==> cs + window_span(q.viewport_height) <= usize::MAX,
        q.active_index matches Some(i) ==> i + window_span(q.viewport_height) <= usize::MAX,
    ensures
        r == view_window_spec(*q),
{
    let windows = matches!(q.view_mode, ViewMode::UnifiedPane | ViewMode::Blame) || (matches!(
        q.view_mode,
        ViewMode::Split
    ) && q.split_align_lines && !q.fold_enabled);
    if q.line_wrap || !q.file_is_large || !windows || q.total_len == 0 {
        return (q.scroll_offset, None);
    }
    let viewport = umax_exec(q.viewport_height, 1);
    let m = max_scroll(q.total_len, viewport, q.allow_overscroll);
    let scroll0 = if q.scroll_offset > m {
        m
    } else {
        q.scroll_offset
    };
    let span = span_of(q.viewport_height);
    let margin = span / 4;
    let last = q.total_len - 1;
    let scroll = if scroll0 < last {
        scroll0
    } else {
        last
    };
    if q.stepping {
        let idx = match q.active_index {
            Some(i) => i,
            None => return (scroll0, None),
        };
        let start = if idx >= span {
            idx - span
        } else {
            0
        };
        let end = if idx + span < last {
            idx + span
        } else {
            last
        };
        let lo = match start.checked_add(margin) {
            Some(v) => v,
            None => usize::MAX,
        };
        let hi = if end >= margin {
            end - margin
        } else {
            0
        };
        let inside = scroll >= lo && scroll <= hi;
        if !q.needs_scroll_to_active && !inside {
            let s2 = if scroll >= margin {
                scroll - margin
            } else {
                0
            };
            let e2 = if s2 + span < last {
                s2 + span
            } else {
                last
            };
            return (scroll0, Some(ViewWindow { start: s2, end: e2, total_len: q.total_len }));
        }
        return (scroll0, Some(ViewWindow { start, end, total_len: q.total_len }));
    }
    if q.total_len <= span {
        return (scroll0, Some(ViewWindow { start: 0, end: last, total_len: q.total_len }));
    }
    let start = if scroll >= margin {
        scroll - margin
    } else {
        0
    };
    let end = if start + span < last {
        start + span
    } else {
        last
    };
    match q.current_start {
        Some(cs) => {
            let ce = if cs + span < last {
                cs + span
            } else {
                last
            };
            let lo = match cs.checked_add(margin) {
                Some(v) => v,
                None => usize::MAX,
            };
            let hi = if ce >= margin {
                ce - margin
            } else {
                0
            };
            if scroll >= lo && scroll <= hi {
                (scroll0, Some(ViewWindow { start: cs, end: ce, total_len: q.total_len }))
            } else {
                (scroll0, Some(ViewWindow { start, end, total_len: q.total_len }))
            }
        },
        None => (scroll0, Some(ViewWindow { start, end, total_len: q.total_len })),
    }
}

// ---------------------------------------------------------------------------
// Keeping the active change on screen.
// ---------------------------------------------------------------------------

/// The change a large file centres on: the cursor's change when it rests
/// there without an active change or a step direction; the last applied
/// change (else the active one) after a step backward; else the active
/// change; failing that the last applied change, then the first
/// significant change.
pub open spec fn center_change_spec(
    cursor_change: Option<usize>,
    active_change: Option<usize>,
    last_applied: Option<usize>,
    first_significant: Option<usize>,
    direction: StepDirection,
) -> Option<usize> {
    let primary = if cursor_change is Some && active_change is None && direction
        == StepDirection::Stationary {
        cursor_change
    } else if direction == StepDirection::Backward {
        match last_applied {
            Some(c) => Some(c),
            None => active_change,
        }
    } else {
        active_change
    };
    match primary {
        Some(c) => Some(c),
        None => match last_applied {
            Some(c) => Some(c),
            None => first_significant,
        },
    }
}

/// The change a large file centres on (see [`center_change_spec`]).
pub fn center_change(
    cursor_change: Option<usize>,
    active_change: Option<usize>,
    last_applied: Option<usize>,
    first_significant: Option<usize>,
    direction: StepDirection,
) -> (r: Option<usize>)
    ensures
        r == center_change_spec(cursor_change, active_change, last_applied, first_significant, direction),
{
    let primary = if cursor_change.is_some() && active_change.is_none() && matches!(
        direction,
        StepDirection::Stationary
    ) {
        cursor_change
    } else if matches!(direction, StepDirection::Backward) {
        match last_applied {
            Some(c) => Some(c),
            None => active_change,
        }
    } else {
        active_change
    };
    match primary {
        Some(c) => Some(c),
        None => match last_applied {
            Some(c) => Some(c),
            None => first_significant,
        },
    }
}

/// The scroll offset after centring on display row `display_idx`: the row
/// half a viewport down; without a row, the top (unless the evolution view
/// is stepping past its first step, `keep`), or unchanged when there are no
/// rows.
pub open spec fn center_scroll_spec(
    scroll_offset: usize,
    viewport_height: usize,
    display_len: usize,
    display_idx: Option<usize>,
    keep: bool,
) -> usize {
    match display_idx {
        Some(idx) => sat_sub(idx as int, (viewport_height / 2) as int) as usize,
        None => if display_len > 0 && !keep {
            0
        } else {
            scroll_offset
        },
    }
}

/// The scroll offset after centring on a display row (see
/// [`center_scroll_spec`]).
pub fn center_scroll(
    scroll_offset: usize,
    viewport_height: usize,
    display_len: usize,
    display_idx: Option<usize>,
    keep: bool,
) -> (r: usize)
    ensures
        r == center_scroll_spec(scroll_offset, viewport_height, display_len, display_idx, keep),
{
    match display_idx {
        Some(idx) => {
            let half = viewport_height / 2;
            if idx >= half {
                idx - half
            } else {
                0
            }
        },
        None => if display_len > 0 && !keep {
            0
        } else {
            scroll_offset
        },
    }
}

/// The scroll offset that keeps active row `display_idx` on screen without
/// centring: a margin of up to three rows (a quarter viewport) is kept above
/// and below; a row above it scrolls up to leave the margin, a row below it
/// scrolls down to leave the margin (offsets are within the window starting
/// at `view_start`); without a row, the top (unless `keep`), or unchanged
/// when there are no rows.
pub open spec fn keep_visible_spec(
    scroll_offset: usize,
    render_offset: usize,
    view_start: usize,
    viewport_height: usize,
    display_len: usize,
    display_idx: Option<usize>,
    keep: bool,
) -> usize {
    match display_idx {
        Some(idx) => {
            let margin = umin(3, (viewport_height / 4) as int) as usize;
            if idx < sat_add(render_offset, margin) {
                sat_add(view_start, sat_sub(idx as int, margin as int) as usize)
            } else if idx >= sat_add(render_offset, sat_sub(viewport_height as int, margin as int) as usize) {
                sat_add(
                    view_start,
                    sat_sub(idx as int, sat_sub(viewport_height as int, margin + 1) as int) as usize,
                )
            } else {
                scroll_offset
            }
        },
        None => if display_len > 0 && !keep {
            0
        } else {
            scroll_offset
        },
    }
}

fn sat_add_exec(a: usize, b: usize) -> (r: usize)
    ensures
        r == sat_add(a, b),
{
    match a.checked_add(b) {
        Some(v) => v,
        None => usize::MAX,
    }
}

fn sat_sub_exec(a: usize, b: usize) -> (r: usize)
    ensures
        r == sat_sub(a as int, b as int),
{
    if a >= b {
        a - b
    } else {
        0
    }
}

/// The scroll offset that keeps the active row on screen (see
/// [`keep_visible_spec`]).
pub fn keep_active_visible(
    scroll_offset: usize,
    render_offset: usize,
    view_start: usize,
    viewport_height: usize,
    display_len: usize,
    display_idx: Option<usize>,
    keep: bool,
) -> (r: usize)
    ensures
        r == keep_visible_spec(
            scroll_offset,
            render_offset,
            view_start,
            viewport_height,
            display_len,
            display_idx,
            keep,
        ),
{
    match display_idx {
        Some(idx) => {
            let quarter = viewport_height / 4;
            let margin: usize = if 3 < quarter {
                3
            } else {
                quarter
            };
            if idx < sat_add_exec(render_offset, margin) {
                sat_add_exec(view_start, sat_sub_exec(idx, margin))
            } else if idx >= sat_add_exec(render_offset, sat_sub_exec(viewport_height, margin)) {
                sat_add_exec(view_start, sat_sub_exec(idx, sat_sub_exec(viewport_height, margin + 1)))
            } else {
                scroll_offset
            }
        },
        None => if display_len > 0 && !keep {
            0
        } else {
            scroll_offset
        },
    }
}

} // verus!
