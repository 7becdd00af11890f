//! The file panel and the pickers under the mouse and the panel commands:
//! what a click does to the filter input, the panel's focus and the
//! selected file, how the panel is shown, hidden and resized, which row of a
//! picker list a click lands on, and how the file list scrolls and follows
//! its filter.

use vstd::prelude::*;
use crate::diff::{id_position, position_of_id};
use crate::view_metrics::{point_in_rect, sat_add_u16};

verus! {

/// A rectangle of terminal cells: left column, top row, width and height.
pub type Area = (u16, u16, u16, u16);

/// The cell lies in the area (its far edges computed with saturation).
pub open spec fn in_area(a: Area, column: u16, row: u16) -> bool {
    a.0 <= column < sat_add_u16(a.0, a.2) && a.1 <= row < sat_add_u16(a.1, a.3)
}

/// What a click on the file panel does.
#[derive(Debug, Clone, Copy, PartialEq, Eq, Structural)]
pub enum FileListClick {
    /// Focus the panel and start typing a filter.
    StartFilter,
    /// Leave the panel: unfocus it and stop filtering.
    Unfocus,
    /// Nothing: the click was not on the panel, which had no focus.
    Ignored,
    /// Focus the panel.
    Focus,
    /// Focus the panel and select the file with this index.
    Select(usize),
}

/// The click at (`column`, `row`): on the filter input it starts a filter;
/// off the file list it unfocuses a focused panel (and is ignored
/// otherwise); on the list's title row it focuses the panel; on an item row
/// that shows a file it selects that file; elsewhere in the list it focuses
/// the panel.
pub open spec fn file_list_click_spec(
    filter_area: Option<Area>,
    list_area: Option<Area>,
    rows: Seq<Option<usize>>,
    focused: bool,
    column: u16,
    row: u16,
) -> FileListClick {
    if filter_area matches Some(f) && in_area(f, column, row) {
        FileListClick::StartFilter
    } else {
        match list_area {
            Some(l) if in_area(l, column, row) => {
                let item_start = sat_add_u16(l.1, 1);
                if row < item_start {
                    FileListClick::Focus
                } else {
                    let idx = row - item_start;
                    if idx < rows.len() && rows[idx] is Some {
                        FileListClick::Select(rows[idx]->0)
                    } else {
                        FileListClick::Focus
                    }
                }
            },
            _ => if focused {
                FileListClick::Unfocus
            } else {
                FileListClick::Ignored
            },
        }
    }
}

/// What the click at (`column`, `row`) does (see [`file_list_click_spec`]);
/// `rows` gives, for each item row of the list, the file it shows.
pub fn handle_file_list_click(
    filter_area: Option<Area>,
    list_area: Option<Area>,
    rows: &[Option<usize>],
    focused: bool,
    column: u16,
    row: u16,
) -> (r: FileListClick)
    ensures
        r == file_list_click_spec(filter_area, list_area, rows@, focused, column, row),
{
    if let Some(f) = filter_area {
        if point_in_rect(f, column, row) {
            return FileListClick::StartFilter;
        }
    }
    let l = match list_area {
        Some(l) => l,
        None => {
            return if focused {
                FileListClick::Unfocus
            } else {
                FileListClick::Ignored
            };
        },
    };
    if !point_in_rect(l, column, row) {
        return if focused {
            FileListClick::Unfocus
        } else {
            FileListClick::Ignored
        };
    }
    let item_start = l.1.saturating_add(1);
    if row < item_start {
        return FileListClick::Focus;
    }
    let row_idx = (row - item_start) as usize;
    if row_idx < rows.len() {
        if let Some(file_idx) = rows[row_idx] {
            return FileListClick::Select(file_idx);
        }
    }
    FileListClick::Focus
}

// ---------------------------------------------------------------------------
// Showing, hiding and resizing the panel.
// ---------------------------------------------------------------------------

/// The narrowest the file panel gets.
pub const FILE_PANEL_MIN_WIDTH: u16 = 24;

/// The narrowest the diff view beside the panel gets, as far as the
/// terminal allows.
pub const DIFF_VIEW_MIN_WIDTH: u16 = 50;

/// Which side of the screen the file panel sits on.
#[derive(Debug, Clone, Copy, PartialEq, Eq, Structural)]
pub enum FilePanelPosition {
    Left,
    Right,
}

/// Whether the panel is shown and how it got there.
#[derive(Debug, Clone, Copy, PartialEq, Eq, Structural)]
pub struct PanelVisibility {
    /// The user has shown or hidden the panel.
    pub manually_set: bool,
    /// The panel is shown.
    pub visible: bool,
    /// The panel has the keyboard focus.
    pub focused: bool,
}

/// The panel toggle: once the user has taken control it flips the panel;
/// the first time it shows a panel that was hidden for lack of room and
/// hides one that was shown. A hidden panel loses the focus.
pub open spec fn toggle_panel_spec(p: PanelVisibility, auto_hidden: bool) -> PanelVisibility {
    let visible = if p.manually_set {
        !p.visible
    } else {
        auto_hidden
    };
    PanelVisibility { manually_set: true, visible, focused: visible && p.focused }
}

/// The panel after the toggle command (see [`toggle_panel_spec`]).
pub fn toggle_file_panel(p: PanelVisibility, auto_hidden: bool) -> (r: PanelVisibility)
    ensures
        r == toggle_panel_spec(p, auto_hidden),
{
    let visible = if p.manually_set {
        !p.visible
    } else {
        auto_hidden
    };
    let focused = if !visible {
        false
    } else {
        p.focused
    };
    PanelVisibility { manually_set: true, visible, focused }
}

/// Once the user controls the panel, toggling it twice shows or hides it as
/// before.
pub proof fn law_panel_toggle_twice(p: PanelVisibility, auto_hidden: bool)
    requires
        p.manually_set,
    ensures
        toggle_panel_spec(toggle_panel_spec(p, auto_hidden), auto_hidden).visible == p.visible,
{
}

/// The widest the panel may be on a screen `viewport_width` wide: what the
/// diff view leaves, but never below the panel's minimum.
pub open spec fn max_panel_width(viewport_width: u16) -> u16 {
    let room: int = if viewport_width >= DIFF_VIEW_MIN_WIDTH {
        viewport_width - DIFF_VIEW_MIN_WIDTH
    } else {
        0
    };
    if room > FILE_PANEL_MIN_WIDTH {
        room as u16
    } else {
        FILE_PANEL_MIN_WIDTH
    }
}

/// `width` brought within the panel's minimum and the widest it may be.
pub open spec fn panel_width_spec(width: u16, viewport_width: u16) -> u16 {
    if width < FILE_PANEL_MIN_WIDTH {
        FILE_PANEL_MIN_WIDTH
    } else if width > max_panel_width(viewport_width) {
        max_panel_width(viewport_width)
    } else {
        width
    }
}

/// The panel width kept within bounds (see [`panel_width_spec`]).
pub fn clamp_file_panel_width(width: u16, viewport_width: u16) -> (r: u16)
    ensures
        r == panel_width_spec(width, viewport_width),
{
    let room = if viewport_width >= DIFF_VIEW_MIN_WIDTH {
        viewport_width - DIFF_VIEW_MIN_WIDTH
    } else {
        0
    };
    let max_panel = if room > FILE_PANEL_MIN_WIDTH {
        room
    } else {
        FILE_PANEL_MIN_WIDTH
    };
    if width < FILE_PANEL_MIN_WIDTH {
        FILE_PANEL_MIN_WIDTH
    } else if width > max_panel {
        max_panel
    } else {
        width
    }
}

/// The width after a resize by `delta` columns: the width is read as a
/// signed 16-bit number, moved by `delta` with saturation, kept at the
/// minimum or above, and then brought within bounds.
pub open spec fn resized_width_spec(width: u16, delta: i16, viewport_width: u16) -> u16 {
    let moved: int = (width as i16) + delta;
    let sat: int = if moved > i16::MAX {
        i16::MAX as int
    } else if moved < i16::MIN {
        i16::MIN as int
    } else {
        moved
    };
    let next: int = if sat < FILE_PANEL_MIN_WIDTH {
        FILE_PANEL_MIN_WIDTH as int
    } else {
        sat
    };
    panel_width_spec(next as u16, viewport_width)
}

/// The panel width after the resize command (see [`resized_width_spec`]).
pub fn resize_file_panel(width: u16, delta: i16, viewport_width: u16) -> (r: u16)
    ensures
        r == resized_width_spec(width, delta, viewport_width),
{
    #[verifier::truncate]
    let signed: i16 = width as i16;
    let moved: i32 = signed as i32 + delta as i32;
    let sat: i32 = if moved > 32767 {
        32767
    } else if moved < -32768 {
        -32768
    } else {
        moved
    };
    let next: i32 = if sat < 24 {
        24
    } else {
        sat
    };
    clamp_file_panel_width(next as u16, viewport_width)
}

/// The column of the border between the panel and the diff view.
pub open spec fn separator_column(rect: Area, position: FilePanelPosition) -> int {
    if position == FilePanelPosition::Left {
        sat_add_u16(rect.0, if rect.2 >= 1 { (rect.2 - 1) as u16 } else { 0 })
    } else {
        rect.0 as int
    }
}

/// A press starts resizing the panel when it lands on the border between
/// the panel and the diff view.
pub open spec fn starts_resize_spec(rect: Option<Area>, position: FilePanelPosition, column: u16, row: u16) -> bool {
    match rect {
        Some(a) => column == separator_column(a, position) && a.1 <= row < sat_add_u16(a.1, a.3),
        None => false,
    }
}

/// Whether a press at (`column`, `row`) starts resizing the panel (see
/// [`starts_resize_spec`]).
pub fn start_file_panel_resize(rect: Option<Area>, position: FilePanelPosition, column: u16, row: u16) -> (r: bool)
    ensures
        r == starts_resize_spec(rect, position, column, row),
{
    let (x, y, width, height) = match rect {
        Some(a) => a,
        None => return false,
    };
    let sep_x = if matches!(position, FilePanelPosition::Left) {
        x.saturating_add(width.saturating_sub(1))
    } else {
        x
    };
    let end_y = y.saturating_add(height);
    column == sep_x && row >= y && row < end_y
}

/// While resizing, the panel's new width follows the mouse: on the left
/// the columns up to the mouse, on the right those from the mouse to the
/// panel's right edge, brought within bounds. Nothing happens when not
/// resizing or when the panel has no place on screen.
pub open spec fn drag_width_spec(
    resizing: bool,
    rect: Option<Area>,
    position: FilePanelPosition,
    column: u16,
    viewport_width: u16,
) -> Option<u16> {
    match rect {
        Some(a) if resizing => {
            let w: int = if position == FilePanelPosition::Left {
                sat_add_u16(if column >= a.0 { (column - a.0) as u16 } else { 0 }, 1)
            } else {
                let right = sat_add_u16(a.0, a.2);
                if right >= column {
                    right - column
                } else {
                    0
                }
            };
            Some(panel_width_spec(w as u16, viewport_width))
        },
        _ => None,
    }
}

/// The panel width while dragging its border (see [`drag_width_spec`]).
pub fn drag_file_panel_resize(
    resizing: bool,
    rect: Option<Area>,
    position: FilePanelPosition,
    column: u16,
    viewport_width: u16,
) -> (r: Option<u16>)
    ensures
        r == drag_width_spec(resizing, rect, position, column, viewport_width),
{
    if !resizing {
        return None;
    }
    match rect {
        Some((x, _, width, _)) => {
            let w = if matches!(position, FilePanelPosition::Left) {
                column.saturating_sub(x).saturating_add(1)
            } else {
                x.saturating_add(width).saturating_sub(column)
            };
            Some(clamp_file_panel_width(w, viewport_width))
        },
        None => None,
    }
}

// ---------------------------------------------------------------------------
// Clicks on picker lists.
// ---------------------------------------------------------------------------

/// The entry a click on a picker list selects: the list shows `count`
/// entries from entry `start` on, each `item_height` rows tall (at least
/// one); a click outside the list or below its last entry selects nothing.
pub open spec fn list_click_spec(
    area: Option<Area>,
    item_height: u16,
    count: usize,
    start: usize,
    column: u16,
    row: u16,
) -> Option<usize> {
    match area {
        Some(a) if in_area(a, column, row) => {
            let h: int = if item_height >= 1 {
                item_height as int
            } else {
                1
            };
            let offset: int = (row - a.1) / h;
            if offset >= count {
                None
            } else if start + offset > usize::MAX {
                Some(usize::MAX)
            } else {
                Some((start + offset) as usize)
            }
        },
        _ => None,
    }
}

/// The entry a click on the command palette or file search list selects
/// (see [`list_click_spec`]).
pub fn list_click_selection(
    area: Option<Area>,
    item_height: u16,
    count: usize,
    start: usize,
    column: u16,
    row: u16,
) -> (r: Option<usize>)
    ensures
        r == list_click_spec(area, item_height, count, start, column, row),
{
    let (x, y, width, height) = match area {
        Some(a) => a,
        None => return None,
    };
    if row < y || row >= y.saturating_add(height) {
        return None;
    }
    if column < x || column >= x.saturating_add(width) {
        return None;
    }
    let h: u16 = if item_height >= 1 {
        item_height
    } else {
        1
    };
    let offset: u16 = (row - y) / h;
    let offset = offset as usize;
    if offset >= count {
        return None;
    }
    Some(start.saturating_add(offset))
}

/// A selection kept within a list of `count` entries: the last entry when
/// it is past the end, the first when the list is empty.
pub open spec fn clamped_selection_spec(count: usize, selection: usize) -> usize {
    if count == 0 {
        0
    } else if selection >= count {
        (count - 1) as usize
    } else {
        selection
    }
}

/// The selection kept within the list (see [`clamped_selection_spec`]).
pub fn clamped_selection(count: usize, selection: usize) -> (r: usize)
    ensures
        r == clamped_selection_spec(count, selection),
{
    if count == 0 {
        0
    } else if selection >= count {
        count - 1
    } else {
        selection
    }
}

// ---------------------------------------------------------------------------
// The file list and its filter.
// ---------------------------------------------------------------------------

/// How many files the file list is taken to show at once.
pub const VISIBLE_FILES: usize = 20;

/// The file list's scroll after the selection moved: it follows the
/// selected file's row in the filtered list (the first row when the file is
/// not listed), scrolling up to it, or down just far enough to show it
/// among [`VISIBLE_FILES`] rows; an empty list scrolls to the top.
pub open spec fn list_scroll_spec(indices: Seq<usize>, selected: usize, scroll: usize) -> usize {
    if indices.len() == 0 {
        0
    } else {
        let pos: int = match id_position(indices, selected) {
            Some(k) => k,
            None => 0,
        };
        let s: int = if pos < scroll {
            pos
        } else {
            scroll as int
        };
        if pos >= s + VISIBLE_FILES {
            (pos - (VISIBLE_FILES - 1)) as usize
        } else {
            s as usize
        }
    }
}

/// The file list's scroll that keeps the selected file in view (see
/// [`list_scroll_spec`]).
pub fn update_file_list_scroll(indices: &[usize], selected: usize, scroll: usize) -> (r: usize)
    requires
        scroll + VISIBLE_FILES <= usize::MAX,
    ensures
        r == list_scroll_spec(indices@, selected, scroll),
{
    if indices.len() == 0 {
        return 0;
    }
    let pos = match position_of_id(indices, selected) {
        Some(k) => k,
        None => 0,
    };
    let mut s = scroll;
    if pos < s {
        s = pos;
    }
    if pos >= s + VISIBLE_FILES {
        s = pos - (VISIBLE_FILES - 1);
    }
    s
}

/// When a filter is typed and the selected file is not among those it
/// keeps, the first kept file is selected; otherwise the selection stays.
pub open spec fn filter_selection_spec(filter_empty: bool, indices: Seq<usize>, selected: usize) -> Option<usize> {
    if filter_empty || indices.len() == 0 || indices.contains(selected) {
        None
    } else {
        Some(indices[0])
    }
}

/// The file to select so that the selection matches the filter, if the
/// selection has to move (see [`filter_selection_spec`]).
pub fn ensure_selection_matches_filter(filter_empty: bool, indices: &[usize], selected: usize) -> (r: Option<usize>)
    ensures
        r == filter_selection_spec(filter_empty, indices@, selected),
{
    if filter_empty || indices.len() == 0 {
        return None;
    }
    let mut i: usize = 0;
    while i < indices.len()
        invariant
            0 <= i <= indices.len(),
            forall|k: int| 0 <= k < i ==> indices@[k] != selected,
        decreases indices.len() - i,
    {
        if indices[i] == selected {
            assert(indices@[i as int] == selected);
            return None;
        }
        i = i + 1;
    }
    Some(indices[0])
}

} // verus!
