//! Navigation decisions of the viewer: cycling the view mode, moving to the
//! next or previous file with wrap-around (within a filter when one is
//! set), and the hints shown near the edges.

use vstd::prelude::*;
use crate::diff::{id_position, position_of_id};
use crate::hunks::HunkBounds;
use crate::types::{ViewMode, view_mode_after, view_mode_before};

verus! {

// ---------------------------------------------------------------------------
// Cycling the view mode.
// ---------------------------------------------------------------------------

/// The next view mode: without stepping the evolution view is skipped
/// (unified, split, then blame when available); while stepping the full
/// cycle, without blame when it is not available. A mode outside the cycle
/// goes back to unified.
#[verifier::opaque]
pub open spec fn toggled_mode(mode: ViewMode, stepping: bool, blame: bool) -> ViewMode {
    if !stepping {
        match mode {
            ViewMode::UnifiedPane => ViewMode::Split,
            ViewMode::Split => if blame {
                ViewMode::Blame
            } else {
                ViewMode::UnifiedPane
            },
            _ => ViewMode::UnifiedPane,
        }
    } else if blame {
        view_mode_after(mode)
    } else {
        match mode {
            ViewMode::UnifiedPane => ViewMode::Split,
            ViewMode::Split => ViewMode::Evolution,
            _ => ViewMode::UnifiedPane,
        }
    }
}

/// The previous view mode, the same cycles in reverse.
#[verifier::opaque]
pub open spec fn toggled_mode_reverse(mode: ViewMode, stepping: bool, blame: bool) -> ViewMode {
    if !stepping {
        match mode {
            ViewMode::UnifiedPane => if blame {
                ViewMode::Blame
            } else {
                ViewMode::Split
            },
            ViewMode::Split => ViewMode::UnifiedPane,
            ViewMode::Blame => ViewMode::Split,
            ViewMode::Evolution => ViewMode::UnifiedPane,
        }
    } else if blame {
        view_mode_before(mode)
    } else {
        match mode {
            ViewMode::UnifiedPane => ViewMode::Evolution,
            ViewMode::Split => ViewMode::UnifiedPane,
            ViewMode::Evolution => ViewMode::Split,
            ViewMode::Blame => ViewMode::UnifiedPane,
        }
    }
}

/// The modes of the cycle: no evolution view without stepping, no blame
/// view when it is not available.
pub open spec fn in_mode_cycle(mode: ViewMode, stepping: bool, blame: bool) -> bool {
    (stepping || mode != ViewMode::Evolution) && (blame || mode != ViewMode::Blame)
}

/// The next view mode, and whether the view must scroll to the active
/// change (on entering the evolution view while stepping).
pub fn toggle_view_mode(mode: ViewMode, stepping: bool, blame_enabled: bool) -> (r: (ViewMode, bool))
    ensures
        r.0 == toggled_mode(mode, stepping, blame_enabled),
        r.1 == (stepping && r.0 == ViewMode::Evolution),
{
    reveal(toggled_mode);
    let next = if !stepping {
        match mode {
            ViewMode::UnifiedPane => ViewMode::Split,
            ViewMode::Split => if blame_enabled {
                ViewMode::Blame
            } else {
                ViewMode::UnifiedPane
            },
            ViewMode::Blame => ViewMode::UnifiedPane,
            ViewMode::Evolution => ViewMode::UnifiedPane,
        }
    } else if blame_enabled {
        mode.next()
    } else {
        match mode {
            ViewMode::UnifiedPane => ViewMode::Split,
            ViewMode::Split => ViewMode::Evolution,
            ViewMode::Evolution => ViewMode::UnifiedPane,
            ViewMode::Blame => ViewMode::UnifiedPane,
        }
    };
    (next, stepping && matches!(next, ViewMode::Evolution))
}

/// The previous view mode, and whether the view must scroll to the active
/// change.
pub fn toggle_view_mode_reverse(mode: ViewMode, stepping: bool, blame_enabled: bool) -> (r: (
    ViewMode,
    bool,
))
    ensures
        r.0 == toggled_mode_reverse(mode, stepping, blame_enabled),
        r.1 == (stepping && r.0 == ViewMode::Evolution),
{
    reveal(toggled_mode_reverse);
    let prev = if !stepping {
        match mode {
            ViewMode::UnifiedPane => if blame_enabled {
                ViewMode::Blame
            } else {
                ViewMode::Split
            },
            ViewMode::Split => ViewMode::UnifiedPane,
            ViewMode::Blame => ViewMode::Split,
            ViewMode::Evolution => ViewMode::UnifiedPane,
        }
    } else if blame_enabled {
        mode.prev()
    } else {
        match mode {
            ViewMode::UnifiedPane => ViewMode::Evolution,
            ViewMode::Split => ViewMode::UnifiedPane,
            ViewMode::Evolution => ViewMode::Split,
            ViewMode::Blame => ViewMode::UnifiedPane,
        }
    };
    (prev, stepping && matches!(prev, ViewMode::Evolution))
}

/// Cycling the view mode forward and then back returns to the same mode,
/// and so does cycling back and then forward, for every mode of the cycle;
/// the cycle never leaves its modes.
pub proof fn law_view_mode_toggle_round_trip(mode: ViewMode, stepping: bool, blame: bool)
    requires
        in_mode_cycle(mode, stepping, blame),
    ensures
        toggled_mode_reverse(toggled_mode(mode, stepping, blame), stepping, blame) == mode,
        toggled_mode(toggled_mode_reverse(mode, stepping, blame), stepping, blame) == mode,
        in_mode_cycle(toggled_mode(mode, stepping, blame), stepping, blame),
        in_mode_cycle(toggled_mode_reverse(mode, stepping, blame), stepping, blame),
{
    reveal(toggled_mode);
    reveal(toggled_mode_reverse);
}

// ---------------------------------------------------------------------------
// Moving between files with wrap-around.
// ---------------------------------------------------------------------------

/// The file that moving forward selects, when it moves: within the filtered
/// files (from the current one, or the first when the current one is not
/// among them) the next one, wrapping to the first; otherwise the next file,
/// wrapping to the first. None when that is the current file.
pub open spec fn next_file_target(filtered: Option<Seq<usize>>, count: usize, current: usize) -> Option<
    usize,
> {
    match filtered {
        Some(ix) => if ix.len() == 0 {
            None
        } else {
            let pos = match id_position(ix, current) {
                Some(p) => p,
                None => 0,
            };
            let next = if pos + 1 < ix.len() {
                ix[pos + 1]
            } else {
                ix[0]
            };
            if next == current {
                None
            } else {
                Some(next)
            }
        },
        None => if count == 0 {
            None
        } else {
            let next = if current + 1 < count {
                (current + 1) as usize
            } else {
                0usize
            };
            if next == current {
                None
            } else {
                Some(next)
            }
        },
    }
}

/// The file that moving back selects, and whether it counts as a move:
/// within the filtered files the previous one, wrapping to the last (no
/// move when that is the current file); otherwise the previous file, or
/// from the first file the last one (a move only when there are several).
pub open spec fn prev_file_target(filtered: Option<Seq<usize>>, count: usize, current: usize) -> Option<
    (usize, bool),
> {
    match filtered {
        Some(ix) => if ix.len() == 0 {
            None
        } else {
            let pos = match id_position(ix, current) {
                Some(p) => p,
                None => 0,
            };
            let prev = if pos > 0 {
                ix[pos - 1]
            } else {
                ix[ix.len() - 1]
            };
            if prev == current {
                None
            } else {
                Some((prev, true))
            }
        },
        None => if count == 0 {
            None
        } else if current == 0 {
            Some(((count - 1) as usize, count > 1))
        } else {
            Some(((current - 1) as usize, true))
        },
    }
}

proof fn lemma_position_of(s: Seq<usize>, x: usize)
    ensures
        match id_position(s, x) {
            Some(p) => 0 <= p < s.len() && s[p] == x,
            None => forall|j: int| 0 <= j < s.len() ==> s[j] != x,
        },
    decreases s.len(),
{
    if s.len() > 0 {
        let d = s.drop_last();
        lemma_position_of(d, x);
        assert forall|j: int| 0 <= j < d.len() implies d[j] == s[j] by {}
    }
}

fn find_position(ix: &[usize], x: usize) -> (r: usize)
    ensures
        r == match id_position(ix@, x) {
            Some(p) => p as usize,
            None => 0,
        },
{
    match position_of_id(ix, x) {
        Some(p) => p,
        None => 0,
    }
}

/// The file that moving forward selects (see [`next_file_target`]);
/// `filtered` are the files a filter shows, when one is set.
pub fn next_file_wrapped(filtered: Option<&[usize]>, count: usize, current: usize) -> (r: Option<usize>)
    ensures
        r == next_file_target(
            match filtered {
                Some(f) => Some(f@),
                None => None,
            },
            count,
            current,
        ),
{
    match filtered {
        Some(ix) => {
            if ix.len() == 0 {
                return None;
            }
            let pos = find_position(ix, current);
            proof {
                lemma_position_of(ix@, current);
            }
            let next = if pos + 1 < ix.len() {
                ix[pos + 1]
            } else {
                ix[0]
            };
            if next == current {
                None
            } else {
                Some(next)
            }
        },
        None => {
            if count == 0 {
                return None;
            }
            let next = if current < count - 1 {
                current + 1
            } else {
                0
            };
            if next == current {
                None
            } else {
                Some(next)
            }
        },
    }
}

/// The file that moving back selects and whether it counts as a move (see
/// [`prev_file_target`]).
pub fn prev_file_wrapped(filtered: Option<&[usize]>, count: usize, current: usize) -> (r: Option<
    (usize, bool),
>)
    ensures
        r == prev_file_target(
            match filtered {
                Some(f) => Some(f@),
                None => None,
            },
            count,
            current,
        ),
{
    match filtered {
        Some(ix) => {
            if ix.len() == 0 {
                return None;
            }
            let pos = find_position(ix, current);
            proof {
                lemma_position_of(ix@, current);
            }
            let prev = if pos > 0 {
                ix[pos - 1]
            } else {
                ix[ix.len() - 1]
            };
            if prev == current {
                None
            } else {
                Some((prev, true))
            }
        },
        None => {
            if count == 0 {
                None
            } else if current == 0 {
                Some((count - 1, count > 1))
            } else {
                Some((current - 1, true))
            }
        },
    }
}

/// Moving forward and then back through all files (no filter) returns to
/// the file one started from, whenever there are two files or more.
pub proof fn law_next_then_prev_file(count: usize, current: usize)
    requires
        count >= 2,
        current < count,
    ensures
        next_file_target(None, count, current) matches Some(n) && prev_file_target(None, count, n)
            == Some((current, true)),
{
}

proof fn lemma_first_position(s: Seq<usize>, x: usize, p: int)
    requires
        0 <= p < s.len(),
        s[p] == x,
        forall|j: int| 0 <= j < p ==> s[j] != x,
    ensures
        id_position(s, x) == Some(p),
    decreases s.len(),
{
    let d = s.drop_last();
    if p < s.len() - 1 {
        assert forall|j: int| 0 <= j < p implies d[j] != x by {
            assert(d[j] == s[j]);
        }
        lemma_first_position(d, x, p);
    } else {
        lemma_position_of(d, x);
        assert forall|j: int| 0 <= j < d.len() implies d[j] != x by {
            assert(d[j] == s[j]);
        }
    }
}

/// With a filter that shows some files, moving between files only ever
/// selects a file the filter shows, never the current one: moving back
/// selects the file shown just before the current one, wrapping to the last
/// shown file, and moving forward the file shown just after it, wrapping to
/// the first.
pub proof fn law_filtered_moves_stay_in_filter(ix: Seq<usize>, count: usize, current: usize)
    requires
        ix.len() > 0,
    ensures
        prev_file_target(Some(ix), count, current) matches Some((t, moved)) ==> ix.contains(t) && t != current
            && moved,
        next_file_target(Some(ix), count, current) matches Some(t) ==> ix.contains(t) && t != current,
        forall|p: int|
            0 <= p < ix.len() && #[trigger] ix[p] == current && (forall|j: int| 0 <= j < p ==> ix[j] != current)
                ==> {
                let before = if p > 0 {
                    ix[p - 1]
                } else {
                    ix[ix.len() - 1]
                };
                let after = if p + 1 < ix.len() {
                    ix[p + 1]
                } else {
                    ix[0]
                };
                &&& prev_file_target(Some(ix), count, current) == if before == current {
                    None
                } else {
                    Some((before, true))
                }
                &&& next_file_target(Some(ix), count, current) == if after == current {
                    None
                } else {
                    Some(after)
                }
            },
{
    lemma_position_of(ix, current);
    let pos = match id_position(ix, current) {
        Some(p) => p,
        None => 0,
    };
    assert(0 <= pos < ix.len());
    if pos > 0 {
        assert(ix.contains(ix[pos - 1]));
    }
    assert(ix.contains(ix[ix.len() - 1]));
    if pos + 1 < ix.len() {
        assert(ix.contains(ix[pos + 1]));
    }
    assert(ix.contains(ix[0]));
    assert forall|p: int|
        0 <= p < ix.len() && #[trigger] ix[p] == current && (forall|j: int| 0 <= j < p ==> ix[j] != current)
            implies id_position(ix, current) == Some(p) by {
        lemma_first_position(ix, current, p);
    }
}

/// Without a filter, moving back from a file of the session selects a file
/// of the session: the previous one, or from the first the last one.
pub proof fn law_unfiltered_prev_stays_in_session(count: usize, current: usize)
    requires
        current < count,
    ensures
        prev_file_target(None, count, current) matches Some((t, _)) && t < count,
        current > 0 ==> prev_file_target(None, count, current) == Some(((current - 1) as usize, true)),
        current == 0 ==> prev_file_target(None, count, current) == Some(((count - 1) as usize, count > 1)),
{
}

// ---------------------------------------------------------------------------
// Hints.
// ---------------------------------------------------------------------------

/// Whether a hunk reaches above the viewport and below it: its first row
/// above the scroll offset, its last row past the viewport's last row.
pub open spec fn hunk_overflow_spec(bounds: HunkBounds, scroll_offset: usize, viewport_height: usize) -> (
    bool,
    bool,
) {
    let visible_end = if scroll_offset + (if viewport_height > 0 {
        viewport_height - 1
    } else {
        0
    }) > usize::MAX {
        usize::MAX as int
    } else {
        scroll_offset + (if viewport_height > 0 {
            viewport_height - 1
        } else {
            0
        })
    };
    (bounds.start.idx < scroll_offset, bounds.end.idx > visible_end)
}

/// Whether the hunk's rows overflow the viewport above and below (see
/// [`hunk_overflow_spec`]).
pub fn hunk_hint_overflow(bounds: HunkBounds, scroll_offset: usize, viewport_height: usize) -> (r: (
    bool,
    bool,
))
    ensures
        r == hunk_overflow_spec(bounds, scroll_offset, viewport_height),
{
    let span = if viewport_height > 0 {
        viewport_height - 1
    } else {
        0
    };
    let visible_end = match scroll_offset.checked_add(span) {
        Some(v) => v,
        None => usize::MAX,
    };
    (bounds.start.idx < scroll_offset, bounds.end.idx > visible_end)
}

/// Whether the hint that the next step is the last one shows: while
/// stepping, with two steps or more, one step before the end.
pub fn last_step_hint(stepping: bool, total_steps: usize, current_step: usize) -> (r: bool)
    ensures
        r == (stepping && total_steps >= 2 && (if total_steps - 1 >= current_step {
            total_steps - 1 - current_step
        } else {
            0
        }) == 1),
{
    if !stepping || total_steps < 2 {
        return false;
    }
    let remaining = if total_steps - 1 >= current_step {
        total_steps - 1 - current_step
    } else {
        0
    };
    remaining == 1
}

// ---------------------------------------------------------------------------
// Entering a file.
// ---------------------------------------------------------------------------

/// Where the view goes on entering a file without stepping when no saved
/// position was restored.
#[derive(Debug, Clone, Copy, PartialEq, Eq, Structural)]
pub enum NoStepEntry {
    /// Jump to the file's first hunk.
    FirstHunk,
    /// Put the cursor on the line at the scroll position.
    CursorAtScroll,
}

/// On a file's first visit without stepping the view jumps to its first
/// hunk when so configured; otherwise the cursor follows the scroll
/// position.
pub fn no_step_entry(auto_jump_on_enter: bool, visited_without_stepping: bool) -> (r: NoStepEntry)
    ensures
        r == (if auto_jump_on_enter && !visited_without_stepping {
            NoStepEntry::FirstHunk
        } else {
            NoStepEntry::CursorAtScroll
        }),
{
    if auto_jump_on_enter && !visited_without_stepping {
        NoStepEntry::FirstHunk
    } else {
        NoStepEntry::CursorAtScroll
    }
}

/// The settings and state that decide what entering a file does while
/// stepping.
#[derive(Debug, Clone, Copy, PartialEq, Eq, Structural)]
pub struct StepEntry {
    pub visited: bool,
    pub is_large: bool,
    pub current_step: usize,
    pub total_steps: usize,
    pub auto_step_blank_files: bool,
    pub blank_at_start: bool,
    pub auto_step_on_enter: bool,
    pub view_mode: ViewMode,
}

/// Entering a file while stepping: a file seen before is left alone; on the
/// first visit the file is marked visited, and a file that is not large,
/// still at its first step and with more than one step takes a first step
/// when it is blank there and blank files step on their own, or when files
/// step on entry and the view is not the evolution view. The result is
/// whether to mark the file visited and whether to take a step.
pub open spec fn step_entry_spec(e: StepEntry) -> (bool, bool) {
    if e.visited {
        (false, false)
    } else if e.is_large || e.current_step != 0 || e.total_steps <= 1 {
        (true, false)
    } else {
        (true, (e.auto_step_blank_files && e.blank_at_start) || (e.auto_step_on_enter && e.view_mode
            != ViewMode::Evolution))
    }
}

/// What entering a file while stepping does (see [`step_entry_spec`]).
pub fn step_entry(e: StepEntry) -> (r: (bool, bool))
    ensures
        r == step_entry_spec(e),
{
    if e.visited {
        return (false, false);
    }
    if e.is_large {
        return (true, false);
    }
    if e.current_step != 0 || e.total_steps <= 1 {
        return (true, false);
    }
    if e.auto_step_blank_files && e.blank_at_start {
        return (true, true);
    }
    (true, e.auto_step_on_enter && !matches!(e.view_mode, ViewMode::Evolution))
}

// ---------------------------------------------------------------------------
// Numbers typed by the user, and progress within a hunk.
// ---------------------------------------------------------------------------

/// The index that a typed step or hunk number (counted from one) goes to,
/// brought within `1..=total`; none when there is nothing to go to.
pub fn number_to_index(number: usize, total: usize) -> (r: Option<usize>)
    ensures
        r == (if total == 0 {
            None
        } else if number < 1 {
            Some(0usize)
        } else if number > total {
            Some((total - 1) as usize)
        } else {
            Some((number - 1) as usize)
        }),
{
    if total == 0 {
        return None;
    }
    let clamped = if number < 1 {
        1
    } else if number > total {
        total
    } else {
        number
    };
    Some(clamped - 1)
}

/// How far stepping has gone through the current hunk, whose steps start at
/// `range.0` and number `range.1`: the steps taken into it (none before it,
/// all of them past it) and its number of steps; nothing for a hunk without
/// steps.
pub fn hunk_step_progress(range: Option<(usize, usize)>, current_step: usize) -> (r: Option<(usize, usize)>)
    ensures
        r == match range {
            Some((start, total)) => if total == 0 {
                None
            } else {
                let taken: int = if current_step >= start {
                    current_step - start
                } else {
                    0
                };
                Some((if taken < total { taken as usize } else { total }, total))
            },
            None => None,
        },
{
    let (start, total) = match range {
        Some(r) => r,
        None => return None,
    };
    if total == 0 {
        return None;
    }
    let taken = if current_step >= start {
        current_step - start
    } else {
        0
    };
    Some((if taken < total {
        taken
    } else {
        total
    }, total))
}

// ---------------------------------------------------------------------------
// Wrapping past the last hunk into the next file.
// ---------------------------------------------------------------------------

/// The position visited `k` steps from `start` among `n` files, forward or
/// backward with wrap-around.
pub open spec fn walk_pos(start: int, n: int, k: int, forward: bool) -> int {
    if forward {
        (start + k) % n
    } else {
        (start + n - k) % n
    }
}

/// Walking on from step `k`, having last selected `last`: each file visited
/// is selected; the walk stops when it comes back to the current file, and
/// ends at the first visited file that has hunks, at its first hunk going
/// forward and its last going backward. The result is the file selected
/// last, if any, and the hunk to go to, if one was found.
pub open spec fn wrap_walk(
    ix: Seq<usize>,
    totals: Seq<usize>,
    current: usize,
    forward: bool,
    start: int,
    k: int,
    last: Option<usize>,
) -> (Option<usize>, Option<usize>)
    decreases ix.len() + 1 - k,
{
    if k < 1 || k > ix.len() {
        (last, None)
    } else {
        let idx = ix[walk_pos(start, ix.len() as int, k, forward)];
        if idx == current {
            (last, None)
        } else if totals[idx as int] == 0 {
            wrap_walk(ix, totals, current, forward, start, k + 1, Some(idx))
        } else {
            (
                Some(idx),
                Some(
                    if forward {
                        0usize
                    } else {
                        (totals[idx as int] - 1) as usize
                    },
                ),
            )
        }
    }
}

/// Moving past the last (first) hunk of a file when hunks wrap across
/// files: the walk over the files the filter shows (all files without one),
/// from the current file's place among them, or from the first when it is
/// not among them (see [`wrap_walk`]).
pub open spec fn wrap_file_spec(ix: Seq<usize>, totals: Seq<usize>, current: usize, forward: bool) -> (
    Option<usize>,
    Option<usize>,
) {
    if ix.len() == 0 {
        (None, None)
    } else {
        let start = match id_position(ix, current) {
            Some(p) => p,
            None => 0,
        };
        wrap_walk(ix, totals, current, forward, start, 1, None)
    }
}

/// The file the hunk motion wraps to and the hunk it lands on (see
/// [`wrap_file_spec`]); `indices` are the files in play and `totals[i]` the
/// number of hunks of file `i`.
pub fn wrap_to_file_hunk(indices: &[usize], totals: &[usize], current: usize, forward: bool) -> (r: (
    Option<usize>,
    Option<usize>,
))
    requires
        indices.len() <= usize::MAX / 2,
        forall|i: int| 0 <= i < indices.len() ==> #[trigger] indices@[i] < totals.len(),
    ensures
        r == wrap_file_spec(indices@, totals@, current, forward),
{
    let n = indices.len();
    if n == 0 {
        return (None, None);
    }
    let start = find_position(indices, current);
    proof {
        lemma_position_of(indices@, current);
    }
    let ghost ix = indices@;
    let mut last: Option<usize> = None;
    let mut k: usize = 1;
    while k <= n
        invariant
            1 <= k <= n + 1,
            n == indices.len(),
            ix == indices@,
            n <= usize::MAX / 2,
            start < n,
            forall|i: int| 0 <= i < n ==> #[trigger] ix[i] < totals.len(),
            wrap_file_spec(ix, totals@, current, forward) == wrap_walk(
                ix,
                totals@,
                current,
                forward,
                start as int,
                k as int,
                last,
            ),
        decreases n + 1 - k,
    {
        let pos = if forward {
            (start + k) % n
        } else {
            (start + n - k) % n
        };
        let idx = indices[pos];
        if idx == current {
            return (last, None);
        }
        let total = totals[idx];
        if total == 0 {
            last = Some(idx);
            k = k + 1;
        } else {
            return (Some(idx), Some(if forward {
                0
            } else {
                total - 1
            }));
        }
    }
    (last, None)
}

} // verus!
