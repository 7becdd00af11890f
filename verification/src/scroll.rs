//! The scroll commands: vertical moves by a line or half a page, keeping the
//! offset within the content, horizontal moves and their limit, and the
//! toggles of line wrapping and context folding.

use vstd::prelude::*;
use crate::config::FoldContextMode;
use crate::view_metrics::{max_scroll, sat_sub};

verus! {

/// How far one horizontal scroll step moves, in columns.
pub const HORIZONTAL_STEP: usize = 4;

/// The offset one line up (not above the top).
pub fn scroll_up(offset: usize) -> (r: usize)
    ensures
        r == sat_sub(offset as int, 1),
{
    if offset > 0 {
        offset - 1
    } else {
        0
    }
}

/// The offset one line down.
pub fn scroll_down(offset: usize) -> (r: usize)
    requires
        offset < usize::MAX,
    ensures
        r == offset + 1,
{
    offset + 1
}

/// The offset half a viewport up (not above the top).
pub fn scroll_half_page_up(offset: usize, viewport_height: usize) -> (r: usize)
    ensures
        r == sat_sub(offset as int, viewport_height as int / 2),
{
    let half = viewport_height / 2;
    if offset >= half {
        offset - half
    } else {
        0
    }
}

/// The offset half a viewport down.
pub fn scroll_half_page_down(offset: usize, viewport_height: usize) -> (r: usize)
    requires
        offset + viewport_height / 2 <= usize::MAX,
    ensures
        r == offset + viewport_height / 2,
{
    offset + viewport_height / 2
}

/// The largest offset for `total_lines` lines in a viewport of
/// `viewport_height` rows: with overscroll the last line may reach the
/// middle of the viewport, otherwise the viewport stays filled.
pub open spec fn max_scroll_spec(total_lines: usize, viewport_height: usize, allow_overscroll: bool) -> int {
    if allow_overscroll {
        sat_sub(sat_sub(total_lines as int, 1), viewport_height as int / 2)
    } else {
        sat_sub(total_lines as int, viewport_height as int)
    }
}

/// The offset brought down to the largest one when it is past it.
pub open spec fn clamp_spec(offset: int, total_lines: usize, viewport_height: usize, allow_overscroll: bool) -> int {
    if offset <= max_scroll_spec(total_lines, viewport_height, allow_overscroll) {
        offset
    } else {
        max_scroll_spec(total_lines, viewport_height, allow_overscroll)
    }
}

/// The offset kept within the content (see [`clamp_spec`]).
pub fn clamp_scroll(offset: usize, total_lines: usize, viewport_height: usize, allow_overscroll: bool) -> (r: usize)
    ensures
        r == clamp_spec(offset as int, total_lines, viewport_height, allow_overscroll),
{
    let limit = max_scroll(total_lines, viewport_height, allow_overscroll);
    if offset <= limit {
        offset
    } else {
        limit
    }
}

/// One line down and then one line up lands where it started.
pub proof fn law_scroll_down_then_up(offset: usize)
    requires
        offset < usize::MAX,
    ensures
        sat_sub(offset + 1, 1) == offset,
{
}

/// Keeping the offset within the content twice is keeping it once.
pub proof fn law_clamp_scroll_idempotent(offset: int, total_lines: usize, viewport_height: usize, allow: bool)
    ensures
        clamp_spec(clamp_spec(offset, total_lines, viewport_height, allow), total_lines, viewport_height, allow)
            == clamp_spec(offset, total_lines, viewport_height, allow),
{
}

/// The horizontal offset one step left; wrapped lines do not scroll
/// sideways.
pub fn scroll_left(horizontal: usize, line_wrap: bool) -> (r: usize)
    ensures
        r == if line_wrap {
            horizontal as int
        } else {
            sat_sub(horizontal as int, HORIZONTAL_STEP as int)
        },
{
    if line_wrap {
        horizontal
    } else if horizontal >= HORIZONTAL_STEP {
        horizontal - HORIZONTAL_STEP
    } else {
        0
    }
}

/// The horizontal offset one step right; wrapped lines do not scroll
/// sideways.
pub fn scroll_right(horizontal: usize, line_wrap: bool) -> (r: usize)
    requires
        line_wrap || horizontal + HORIZONTAL_STEP <= usize::MAX,
    ensures
        r == if line_wrap {
            horizontal as int
        } else {
            horizontal + HORIZONTAL_STEP
        },
{
    if line_wrap {
        horizontal
    } else {
        horizontal + HORIZONTAL_STEP
    }
}

/// The horizontal offset at the end of the line: as far as it goes (half
/// the largest offset, brought back when the view is drawn); wrapped lines
/// do not scroll sideways.
pub fn scroll_to_line_end(horizontal: usize, line_wrap: bool) -> (r: usize)
    ensures
        r == if line_wrap {
            horizontal
        } else {
            (usize::MAX / 2) as usize
        },
{
    if line_wrap {
        horizontal
    } else {
        usize::MAX / 2
    }
}

/// The horizontal offset kept so that the widest line, `max_line_width`
/// columns, still reaches the right edge of a viewport `viewport_width`
/// wide. Wrapped lines, and a width not known yet (zero) when `known_only`,
/// leave it alone.
pub fn clamp_horizontal_scroll(
    horizontal: usize,
    line_wrap: bool,
    max_line_width: usize,
    viewport_width: usize,
    known_only: bool,
) -> (r: usize)
    ensures
        r == if line_wrap || (known_only && max_line_width == 0) {
            horizontal as int
        } else if horizontal <= sat_sub(max_line_width as int, viewport_width as int) {
            horizontal as int
        } else {
            sat_sub(max_line_width as int, viewport_width as int)
        },
{
    if line_wrap || (known_only && max_line_width == 0) {
        return horizontal;
    }
    let limit = if max_line_width >= viewport_width {
        max_line_width - viewport_width
    } else {
        0
    };
    if horizontal <= limit {
        horizontal
    } else {
        limit
    }
}

/// The fold setting after the fold toggle: folding that is on goes off; off,
/// it comes back as the configured default, or plainly on when the default
/// is off too.
pub open spec fn fold_toggle_spec(current: FoldContextMode, default: FoldContextMode) -> FoldContextMode {
    if current != FoldContextMode::Off {
        FoldContextMode::Off
    } else if default != FoldContextMode::Off {
        default
    } else {
        FoldContextMode::On
    }
}

/// The fold setting after the fold toggle (see [`fold_toggle_spec`]).
pub fn toggle_fold_context(current: FoldContextMode, default: FoldContextMode) -> (r: FoldContextMode)
    ensures
        r == fold_toggle_spec(current, default),
{
    if current.is_enabled() {
        FoldContextMode::Off
    } else if default.is_enabled() {
        default
    } else {
        FoldContextMode::On
    }
}

/// Toggling folding twice brings back the configured folding when that is
/// what was on.
pub proof fn law_fold_toggle_twice(default: FoldContextMode)
    requires
        default != FoldContextMode::Off,
    ensures
        fold_toggle_spec(fold_toggle_spec(default, default), default) == default,
{
}

/// Line wrapping after the wrap toggle, and the horizontal offset, which
/// goes back to the start when wrapping comes on.
pub fn toggle_line_wrap(line_wrap: bool, horizontal: usize) -> (r: (bool, usize))
    ensures
        r == (!line_wrap, if !line_wrap {
            0
        } else {
            horizontal
        }),
{
    let wrap = !line_wrap;
    (wrap, if wrap {
        0
    } else {
        horizontal
    })
}

} // verus!
