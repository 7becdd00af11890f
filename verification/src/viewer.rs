//! The viewer's state as the key commands read and change it, its state
//! when it starts, what each command of the normal mode and each mouse
//! event does (the part decided here, and what is left to the session:
//! stepping, hunk jumps, file moves, yanks, the editor, as an effect for
//! the caller to carry out), and when the viewer's loop ends.

use vstd::prelude::*;
use crate::config::{FoldContextMode, ModifiedStepMode};
use crate::count::MAX_COUNT;
use crate::file_panel::{
    resize_file_panel, resized_width_spec, toggle_file_panel, toggle_panel_spec, PanelVisibility,
};
use crate::multi::MultiFileDiff;
use crate::navigation::{toggle_view_mode, toggle_view_mode_reverse, toggled_mode, toggled_mode_reverse};
use crate::peek::{cycle_peek_change, cycle_peek_spec, toggle_hunk_spec, toggle_peek_hunk, PeekState};
use crate::scroll::{fold_toggle_spec, toggle_fold_context, HORIZONTAL_STEP};
use crate::types::ViewMode;
use crate::scroll::{scroll_down, scroll_up};
use crate::view_metrics::sat_sub;

verus! {

/// A command of the normal mode.
#[derive(Debug, Clone, Copy, PartialEq, Eq, Structural)]
pub enum NormalAction {
    Quit,
    StepDown,
    StepUp,
    NextHunk,
    PrevHunk,
    HunkStart,
    HunkEnd,
    BlameHint,
    TogglePeekChange,
    TogglePeekHunk,
    YankChange,
    YankHunk,
    YankChangePatch,
    YankHunkPatch,
    TogglePathPopup,
    OpenEditor,
    GotoStart,
    GotoEnd,
    FirstStep,
    LastStep,
    PrevFile,
    NextFile,
    ToggleAutoplay,
    ToggleAutoplayReverse,
    ToggleViewMode,
    ToggleViewModeReverse,
    ScrollUp,
    ScrollDown,
    HalfPageUp,
    HalfPageDown,
    ToggleFileListFocus,
    IncreaseSpeed,
    DecreaseSpeed,
    ToggleAnimation,
    ToggleLineWrap,
    ToggleSyntax,
    ToggleEvoSyntax,
    ToggleStepping,
    ToggleStrikethrough,
    ScrollLeft,
    ScrollRight,
    LineStart,
    LineEnd,
    CenterActive,
    ToggleZen,
    ReplayStep,
    Refresh,
    ToggleFilePanel,
    ToggleFoldContext,
    OpenSearchOrFileFilter,
    OpenGoto,
    SearchNext,
    SearchPrev,
    NextConflict,
    PrevConflict,
    LineComment,
    HunkComment,
    ClearComments,
    RemoveLineComment,
    RemoveHunkComment,
    ToggleHelp,
    OpenCommandPalette,
    OpenFileSearch,
}

/// What the caller has to carry out after a command.
#[derive(Debug, Clone, Copy, PartialEq, Eq, Structural)]
pub enum ViewerEffect {
    /// Nothing more.
    Nothing,
    /// Submit the review, if any, and quit.
    Quit,
    /// Open the current file in the external editor.
    OpenEditor,
    /// Take `count` steps forward or back.
    Steps { forward: bool, count: usize },
    /// Move `count` hunks forward or back (by stepping or by scrolling).
    Hunks { forward: bool, count: usize },
    /// Go to the start or end of the current hunk.
    HunkEdge { end: bool },
    /// Move `count` files forward or back.
    Files { forward: bool, count: usize },
    /// Copy the current change or hunk, as text or as a patch.
    Yank { hunk: bool, patch: bool },
    /// Show the blame hint.
    BlameHint,
    /// Go to the start or end of the file.
    GotoEdge { end: bool },
    /// Go to the first or last step (the first or last hunk without
    /// stepping).
    StepEdge { last: bool },
    /// Start or stop autoplay, forward or in reverse.
    Autoplay { reverse: bool },
    /// Play faster or slower.
    Speed { faster: bool },
    /// Turn animations on or off.
    ToggleAnimation,
    /// Turn stepping on or off.
    ToggleStepping,
    /// Centre the active change in a viewport of this height.
    Center { viewport_height: usize },
    /// Replay the last `count` steps.
    Replay { count: usize },
    /// Read the files again.
    Refresh,
    /// Start typing a file filter.
    StartFileFilter,
    /// Start typing a search.
    StartSearch,
    /// Start typing a line number to go to.
    StartGoto,
    /// Move to the next or previous search match.
    SearchStep { forward: bool },
    /// Move to the next or previous conflict.
    Conflict { forward: bool },
    /// Start a comment on the current line or hunk.
    Comment { hunk: bool },
    /// Remove every review comment.
    ClearComments,
    /// Remove the comment on the current line or hunk.
    RemoveComment { hunk: bool },
    /// The command palette opened: its query, the search and the line input
    /// are cleared.
    PaletteOpened,
    /// The file search opened: its query, the search and the line input are
    /// cleared.
    FileSearchOpened,
    /// Syntax highlighting went off: its caches are dropped.
    SyntaxOff,
}

/// The viewer state that the key commands read and change.
#[derive(Debug, Clone, Copy)]
pub struct ViewerState {
    pub pending_count: Option<usize>,
    pub show_path_popup: bool,
    /// The file panel: whether it is shown, whether the user set that, and
    /// whether the file list has the focus.
    pub panel: PanelVisibility,
    pub panel_auto_hidden: bool,
    pub panel_width: u16,
    pub file_filter_active: bool,
    pub multi_file: bool,
    pub stepping: bool,
    pub view_mode: ViewMode,
    pub blame_enabled: bool,
    pub scroll_offset: usize,
    pub horizontal_scroll: usize,
    pub line_wrap: bool,
    pub fold_context: FoldContextMode,
    pub fold_context_default: FoldContextMode,
    pub peek: Option<PeekState>,
    pub modified_step_mode: ModifiedStepMode,
    pub needs_scroll_to_active: bool,
    pub zen_mode: bool,
    pub show_help: bool,
    pub help_scroll: usize,
    pub strikethrough_deletions: bool,
    pub syntax_on: bool,
    pub evo_syntax_full: bool,
    pub command_palette_active: bool,
    pub file_search_active: bool,
    /// Milliseconds between autoplay steps.
    pub animation_speed: u64,
    pub autoplay: bool,
    pub autoplay_reverse: bool,
}

impl ViewerState {
    /// A typed count is at most [`MAX_COUNT`].
    pub open spec fn wf(self) -> bool {
        self.pending_count matches Some(n) ==> n <= MAX_COUNT
    }
}

/// The state a viewer starts in: at the top, stepping, the file panel shown
/// and not focused (30 columns wide), no count, popup, peek, folding, help,
/// picker or filter, syntax highlighting on with context-only evolution
/// syntax, scrolling to the first change pending, and autoplay forward at
/// the given speed when it is asked for.
pub open spec fn initial_viewer_spec(
    multi_file: bool,
    view_mode: ViewMode,
    animation_speed: u64,
    autoplay: bool,
) -> ViewerState {
    ViewerState {
        pending_count: None,
        show_path_popup: false,
        panel: PanelVisibility { manually_set: false, visible: true, focused: false },
        panel_auto_hidden: false,
        panel_width: 30,
        file_filter_active: false,
        multi_file,
        stepping: true,
        view_mode,
        blame_enabled: false,
        scroll_offset: 0,
        horizontal_scroll: 0,
        line_wrap: false,
        fold_context: FoldContextMode::Off,
        fold_context_default: FoldContextMode::Off,
        peek: None,
        modified_step_mode: ModifiedStepMode::Mixed,
        needs_scroll_to_active: true,
        zen_mode: false,
        show_help: false,
        help_scroll: 0,
        strikethrough_deletions: false,
        syntax_on: true,
        evo_syntax_full: false,
        command_palette_active: false,
        file_search_active: false,
        animation_speed,
        autoplay,
        autoplay_reverse: false,
    }
}

/// The viewer state for a new session (see [`initial_viewer_spec`]).
pub fn new_viewer_state(session: &MultiFileDiff, view_mode: ViewMode, animation_speed: u64, autoplay: bool) -> (r:
    ViewerState)
    requires
        session.wf(),
    ensures
        r.wf(),
        r == initial_viewer_spec(session@.files.len() > 1, view_mode, animation_speed, autoplay),
{
    ViewerState {
        pending_count: None,
        show_path_popup: false,
        panel: PanelVisibility { manually_set: false, visible: true, focused: false },
        panel_auto_hidden: false,
        panel_width: 30,
        file_filter_active: false,
        multi_file: session.is_multi_file(),
        stepping: true,
        view_mode,
        blame_enabled: false,
        scroll_offset: 0,
        horizontal_scroll: 0,
        line_wrap: false,
        fold_context: FoldContextMode::Off,
        fold_context_default: FoldContextMode::Off,
        peek: None,
        modified_step_mode: ModifiedStepMode::Mixed,
        needs_scroll_to_active: true,
        zen_mode: false,
        show_help: false,
        help_scroll: 0,
        strikethrough_deletions: false,
        syntax_on: true,
        evo_syntax_full: false,
        command_palette_active: false,
        file_search_active: false,
        animation_speed,
        autoplay,
        autoplay_reverse: false,
    }
}

/// The count a command takes: the typed count, or for a command whose
/// presses are counted the number of presses `repeat`, or one. The typed
/// count is used up.
pub open spec fn count_of(s: ViewerState, counted: bool, repeat: usize) -> usize {
    match s.pending_count {
        Some(n) => n,
        None => if counted {
            repeat
        } else {
            1
        },
    }
}

/// The terminal height left for scrolling by half pages: the rows less six.
pub open spec fn half_page(rows: u16) -> int {
    sat_sub(rows as int, 6) / 2
}

/// The commands that move through the diff or leave work to the caller.
pub open spec fn is_motion(action: NormalAction) -> bool {
    match action {
        NormalAction::Quit | NormalAction::StepDown | NormalAction::StepUp | NormalAction::NextHunk
        | NormalAction::PrevHunk | NormalAction::HunkStart | NormalAction::HunkEnd | NormalAction::BlameHint
        | NormalAction::YankChange | NormalAction::YankHunk | NormalAction::YankChangePatch
        | NormalAction::YankHunkPatch | NormalAction::OpenEditor | NormalAction::GotoStart
        | NormalAction::GotoEnd | NormalAction::FirstStep | NormalAction::LastStep | NormalAction::PrevFile
        | NormalAction::NextFile | NormalAction::ToggleAutoplay | NormalAction::ToggleAutoplayReverse
        | NormalAction::ToggleAnimation | NormalAction::ToggleStepping | NormalAction::CenterActive
        | NormalAction::ReplayStep | NormalAction::Refresh | NormalAction::OpenSearchOrFileFilter
        | NormalAction::OpenGoto | NormalAction::SearchNext | NormalAction::SearchPrev
        | NormalAction::NextConflict | NormalAction::PrevConflict | NormalAction::LineComment
        | NormalAction::HunkComment | NormalAction::ClearComments | NormalAction::RemoveLineComment
        | NormalAction::RemoveHunkComment => true,
        _ => false,
    }
}

/// The commands that scroll the view.
pub open spec fn is_scroll(action: NormalAction) -> bool {
    match action {
        NormalAction::ScrollUp | NormalAction::ScrollDown | NormalAction::HalfPageUp
        | NormalAction::HalfPageDown | NormalAction::ScrollLeft | NormalAction::ScrollRight
        | NormalAction::LineStart | NormalAction::LineEnd => true,
        _ => false,
    }
}

/// What a motion command does (see [`is_motion`]).
#[verifier::opaque]
pub open spec fn motion_spec(s: ViewerState, action: NormalAction, repeat: usize, rows: Option<u16>) -> (ViewerState, ViewerEffect) {
    let t = ViewerState { pending_count: None, ..s };
    let plain = count_of(s, false, repeat);
    let counted = count_of(s, true, repeat);
    match action {
        NormalAction::Quit => if s.show_path_popup {
            (ViewerState { pending_count: None, show_path_popup: false, ..s }, ViewerEffect::Nothing)
        } else {
            (t, ViewerEffect::Quit)
        },
        NormalAction::StepDown => if s.panel.focused {
            (t, ViewerEffect::Files { forward: true, count: counted })
        } else if s.stepping {
            (t, ViewerEffect::Steps { forward: true, count: counted })
        } else {
            (ViewerState { pending_count: None, scroll_offset: (s.scroll_offset + counted) as usize, ..s }, ViewerEffect::Nothing)
        },
        NormalAction::StepUp => if s.panel.focused {
            (t, ViewerEffect::Files { forward: false, count: counted })
        } else if s.stepping {
            (t, ViewerEffect::Steps { forward: false, count: counted })
        } else {
            (
                ViewerState { pending_count: None, scroll_offset: sat_sub(s.scroll_offset as int, counted as int) as usize, ..s },
                ViewerEffect::Nothing,
            )
        },
        NormalAction::NextHunk => (t, ViewerEffect::Hunks { forward: true, count: counted }),
        NormalAction::PrevHunk => (t, ViewerEffect::Hunks { forward: false, count: counted }),
        NormalAction::HunkStart => (t, ViewerEffect::HunkEdge { end: false }),
        NormalAction::HunkEnd => (t, ViewerEffect::HunkEdge { end: true }),
        NormalAction::BlameHint => (t, if s.blame_enabled {
            ViewerEffect::BlameHint
        } else {
            ViewerEffect::Nothing
        }),
        NormalAction::YankChange => (t, ViewerEffect::Yank { hunk: false, patch: false }),
        NormalAction::YankHunk => (t, ViewerEffect::Yank { hunk: true, patch: false }),
        NormalAction::YankChangePatch => (t, ViewerEffect::Yank { hunk: false, patch: true }),
        NormalAction::YankHunkPatch => (t, ViewerEffect::Yank { hunk: true, patch: true }),
        NormalAction::OpenEditor => (t, ViewerEffect::OpenEditor),
        NormalAction::GotoStart => (t, ViewerEffect::GotoEdge { end: false }),
        NormalAction::GotoEnd => (t, ViewerEffect::GotoEdge { end: true }),
        NormalAction::FirstStep => (t, ViewerEffect::StepEdge { last: false }),
        NormalAction::LastStep => (t, ViewerEffect::StepEdge { last: true }),
        NormalAction::PrevFile => (t, ViewerEffect::Files { forward: false, count: plain }),
        NormalAction::NextFile => (t, ViewerEffect::Files { forward: true, count: plain }),
        NormalAction::ToggleAutoplay => (t, if s.stepping {
            ViewerEffect::Autoplay { reverse: false }
        } else {
            ViewerEffect::Nothing
        }),
        NormalAction::ToggleAutoplayReverse => (t, if s.stepping {
            ViewerEffect::Autoplay { reverse: true }
        } else {
            ViewerEffect::Nothing
        }),
        NormalAction::ToggleAnimation => (t, ViewerEffect::ToggleAnimation),
        NormalAction::ToggleStepping => (t, ViewerEffect::ToggleStepping),
        NormalAction::CenterActive => (t, match rows {
            Some(r) => ViewerEffect::Center { viewport_height: sat_sub(r as int, 4) as usize },
            None => ViewerEffect::Nothing,
        }),
        NormalAction::ReplayStep => if s.stepping {
            (t, ViewerEffect::Replay { count: plain })
        } else {
            (s, ViewerEffect::Nothing)
        },
        NormalAction::Refresh => (t, ViewerEffect::Refresh),
        NormalAction::OpenSearchOrFileFilter => (t, if s.panel.focused {
            ViewerEffect::StartFileFilter
        } else {
            ViewerEffect::StartSearch
        }),
        NormalAction::OpenGoto => (t, if s.panel.focused {
            ViewerEffect::Nothing
        } else {
            ViewerEffect::StartGoto
        }),
        NormalAction::SearchNext => (t, ViewerEffect::SearchStep { forward: true }),
        NormalAction::SearchPrev => (t, ViewerEffect::SearchStep { forward: false }),
        NormalAction::NextConflict => (t, ViewerEffect::Conflict { forward: true }),
        NormalAction::PrevConflict => (t, ViewerEffect::Conflict { forward: false }),
        NormalAction::LineComment => (t, ViewerEffect::Comment { hunk: false }),
        NormalAction::HunkComment => (t, ViewerEffect::Comment { hunk: true }),
        NormalAction::ClearComments => (t, ViewerEffect::ClearComments),
        NormalAction::RemoveLineComment => (t, ViewerEffect::RemoveComment { hunk: false }),
        NormalAction::RemoveHunkComment => (t, ViewerEffect::RemoveComment { hunk: true }),
        _ => (t, ViewerEffect::Nothing),
    }
}

/// `a - b`, or 0 when `b` is larger.
pub open spec fn minus(a: usize, b: usize) -> usize {
    if a >= b {
        (a - b) as usize
    } else {
        0
    }
}

/// The vertical offset after a scrolling command by `plain` lines.
pub open spec fn scrolled_offset(s: ViewerState, action: NormalAction, plain: usize, rows: Option<u16>) -> usize {
    match action {
        NormalAction::ScrollUp => minus(s.scroll_offset, plain),
        NormalAction::ScrollDown => (s.scroll_offset + plain) as usize,
        NormalAction::HalfPageUp => match rows {
            Some(r) => minus(s.scroll_offset, half_page(r) as usize),
            None => s.scroll_offset,
        },
        NormalAction::HalfPageDown => match rows {
            Some(r) => (s.scroll_offset + half_page(r)) as usize,
            None => s.scroll_offset,
        },
        _ => s.scroll_offset,
    }
}

/// The horizontal offset after a scrolling command by `plain` steps;
/// wrapped lines do not scroll sideways, except back to the line start.
pub open spec fn scrolled_horizontal(s: ViewerState, action: NormalAction, plain: usize) -> usize {
    match action {
        NormalAction::LineStart => 0,
        NormalAction::ScrollLeft => if s.line_wrap {
            s.horizontal_scroll
        } else {
            minus(s.horizontal_scroll, (4 * plain) as usize)
        },
        NormalAction::ScrollRight => if s.line_wrap {
            s.horizontal_scroll
        } else {
            (s.horizontal_scroll + 4 * plain) as usize
        },
        NormalAction::LineEnd => if s.line_wrap {
            s.horizontal_scroll
        } else {
            (usize::MAX / 2) as usize
        },
        _ => s.horizontal_scroll,
    }
}

/// What a scrolling command does (see [`is_scroll`]): it moves the view
/// and uses up the typed count.
#[verifier::opaque]
pub open spec fn scroll_spec(s: ViewerState, action: NormalAction, repeat: usize, rows: Option<u16>) -> (ViewerState, ViewerEffect) {
    let plain = count_of(s, false, repeat);
    (
        ViewerState {
            pending_count: None,
            scroll_offset: scrolled_offset(s, action, plain, rows),
            horizontal_scroll: scrolled_horizontal(s, action, plain),
            ..s
        },
        ViewerEffect::Nothing,
    )
}

/// What a command that toggles the peek, the path popup, the view mode, the
/// file panel or its focus, or the speed does.
#[verifier::opaque]
pub open spec fn panel_toggle_spec(s: ViewerState, action: NormalAction, cols: Option<u16>) -> (ViewerState, ViewerEffect) {
    let t = ViewerState { pending_count: None, ..s };
    match action {
        NormalAction::TogglePeekChange => (
            ViewerState { pending_count: None, peek: cycle_peek_spec(s.stepping, s.peek, s.modified_step_mode), ..s },
            ViewerEffect::Nothing,
        ),
        NormalAction::TogglePeekHunk => (
            ViewerState { pending_count: None, peek: toggle_hunk_spec(s.stepping, s.peek), ..s },
            ViewerEffect::Nothing,
        ),
        NormalAction::TogglePathPopup => (
            ViewerState { pending_count: None, show_path_popup: !s.show_path_popup, ..s },
            ViewerEffect::Nothing,
        ),
        NormalAction::ToggleViewMode => {
            let m = toggled_mode(s.view_mode, s.stepping, s.blame_enabled);
            (
                ViewerState { pending_count: None,
                    view_mode: m,
                    needs_scroll_to_active: s.needs_scroll_to_active || (s.stepping && m == ViewMode::Evolution),
                    ..s
                },
                ViewerEffect::Nothing,
            )
        },
        NormalAction::ToggleViewModeReverse => {
            let m = toggled_mode_reverse(s.view_mode, s.stepping, s.blame_enabled);
            (
                ViewerState { pending_count: None,
                    view_mode: m,
                    needs_scroll_to_active: s.needs_scroll_to_active || (s.stepping && m == ViewMode::Evolution),
                    ..s
                },
                ViewerEffect::Nothing,
            )
        },
        NormalAction::ToggleFileListFocus => if s.multi_file {
            let focused = !s.panel.focused;
            (
                ViewerState { pending_count: None,
                    panel: PanelVisibility { focused, ..s.panel },
                    file_filter_active: s.file_filter_active && focused,
                    ..s
                },
                ViewerEffect::Nothing,
            )
        } else {
            (t, ViewerEffect::Nothing)
        },
        NormalAction::IncreaseSpeed | NormalAction::DecreaseSpeed => {
            let faster = action == NormalAction::IncreaseSpeed;
            if s.multi_file && s.panel.focused {
                match cols {
                    Some(c) => (
                        ViewerState { pending_count: None,
                            panel_width: resized_width_spec(s.panel_width, if faster { 2i16 } else { -2i16 }, c),
                            panel: PanelVisibility { manually_set: true, ..s.panel },
                            ..s
                        },
                        ViewerEffect::Nothing,
                    ),
                    None => (t, ViewerEffect::Nothing),
                }
            } else {
                (t, ViewerEffect::Speed { faster })
            }
        },
        NormalAction::ToggleFilePanel => if s.multi_file {
            (ViewerState { pending_count: None, panel: toggle_panel_spec(s.panel, s.panel_auto_hidden), ..s }, ViewerEffect::Nothing)
        } else {
            (t, ViewerEffect::Nothing)
        },
        _ => (t, ViewerEffect::Nothing),
    }
}

/// What a command that toggles a display setting, the help or a picker
/// does.
#[verifier::opaque]
pub open spec fn flag_toggle_spec(s: ViewerState, action: NormalAction) -> (ViewerState, ViewerEffect) {
    let t = ViewerState { pending_count: None, ..s };
    match action {
        NormalAction::ToggleLineWrap => (
            ViewerState { pending_count: None,
                line_wrap: !s.line_wrap,
                horizontal_scroll: if !s.line_wrap {
                    0
                } else {
                    s.horizontal_scroll
                },
                needs_scroll_to_active: true,
                ..s
            },
            ViewerEffect::Nothing,
        ),
        NormalAction::ToggleSyntax => (ViewerState { pending_count: None, syntax_on: !s.syntax_on, ..s }, if s.syntax_on {
            ViewerEffect::SyntaxOff
        } else {
            ViewerEffect::Nothing
        }),
        NormalAction::ToggleEvoSyntax => (
            ViewerState { pending_count: None,
                evo_syntax_full: if s.view_mode == ViewMode::Evolution {
                    !s.evo_syntax_full
                } else {
                    s.evo_syntax_full
                },
                ..s
            },
            ViewerEffect::Nothing,
        ),
        NormalAction::ToggleStrikethrough => (
            ViewerState { pending_count: None, strikethrough_deletions: !s.strikethrough_deletions, ..s },
            ViewerEffect::Nothing,
        ),
        NormalAction::ToggleZen => (ViewerState { pending_count: None, zen_mode: !s.zen_mode, ..s }, ViewerEffect::Nothing),
        NormalAction::ToggleFoldContext => (
            ViewerState { pending_count: None,
                fold_context: fold_toggle_spec(s.fold_context, s.fold_context_default),
                needs_scroll_to_active: true,
                ..s
            },
            ViewerEffect::Nothing,
        ),
        NormalAction::ToggleHelp => (
            ViewerState { pending_count: None,
                show_help: !s.show_help,
                help_scroll: if !s.show_help {
                    0
                } else {
                    s.help_scroll
                },
                ..s
            },
            ViewerEffect::Nothing,
        ),
        NormalAction::OpenCommandPalette => if s.command_palette_active {
            (ViewerState { pending_count: None, command_palette_active: false, ..s }, ViewerEffect::Nothing)
        } else {
            (
                ViewerState { pending_count: None,
                    command_palette_active: true,
                    file_filter_active: false,
                    file_search_active: false,
                    ..s
                },
                ViewerEffect::PaletteOpened,
            )
        },
        NormalAction::OpenFileSearch => if s.file_search_active {
            (ViewerState { pending_count: None, file_search_active: false, ..s }, ViewerEffect::Nothing)
        } else {
            (
                ViewerState { pending_count: None,
                    file_search_active: true,
                    file_filter_active: false,
                    command_palette_active: false,
                    ..s
                },
                ViewerEffect::FileSearchOpened,
            )
        },

        _ => (t, ViewerEffect::Nothing),
    }
}

/// The toggles of [`panel_toggle_spec`].
pub open spec fn is_panel_toggle(action: NormalAction) -> bool {
    match action {
        NormalAction::TogglePeekChange | NormalAction::TogglePeekHunk | NormalAction::TogglePathPopup
        | NormalAction::ToggleViewMode | NormalAction::ToggleViewModeReverse | NormalAction::ToggleFileListFocus
        | NormalAction::IncreaseSpeed | NormalAction::DecreaseSpeed | NormalAction::ToggleFilePanel => true,
        _ => false,
    }
}

/// What a command that toggles a setting or a panel does.
pub open spec fn toggle_spec(s: ViewerState, action: NormalAction, cols: Option<u16>) -> (ViewerState, ViewerEffect) {
    if is_panel_toggle(action) {
        panel_toggle_spec(s, action, cols)
    } else {
        flag_toggle_spec(s, action)
    }
}

/// What command `action` does to the state, and what it leaves to the
/// caller; `repeat` is how many presses of the key came in a row, `rows`
/// and `cols` the terminal's size when it is known.
pub open spec fn normal_action_spec(
    s: ViewerState,
    action: NormalAction,
    repeat: usize,
    rows: Option<u16>,
    cols: Option<u16>,
) -> (ViewerState, ViewerEffect) {
    if is_motion(action) {
        motion_spec(s, action, repeat, rows)
    } else if is_scroll(action) {
        scroll_spec(s, action, repeat, rows)
    } else {
        toggle_spec(s, action, cols)
    }
}

/// The count of a command, as a value.
fn count_value(s: ViewerState, counted: bool, repeat: usize) -> (r: usize)
    ensures
        r == count_of(s, counted, repeat),
{
    match s.pending_count {
        Some(n) => n,
        None => if counted {
            repeat
        } else {
            1
        },
    }
}

/// The motion commands (see [`normal_action_spec`]).
fn motion_step(s: ViewerState, action: NormalAction, repeat: usize, rows: Option<u16>) -> (r: (
    ViewerState,
    ViewerEffect,
))
    requires
        s.wf(),
        is_motion(action),
        s.scroll_offset + repeat + MAX_COUNT + 65536 <= usize::MAX,
    ensures
        r == motion_spec(s, action, repeat, rows),
        r.0.wf(),
{
    reveal(motion_spec);
    let t = ViewerState { pending_count: None, ..s };
    let plain = count_value(s, false, repeat);
    let counted = count_value(s, true, repeat);
    match action {
        NormalAction::Quit => if s.show_path_popup {
            (ViewerState { pending_count: None, show_path_popup: false, ..s }, ViewerEffect::Nothing)
        } else {
            (t, ViewerEffect::Quit)
        },
        NormalAction::StepDown => if s.panel.focused {
            (t, ViewerEffect::Files { forward: true, count: counted })
        } else if s.stepping {
            (t, ViewerEffect::Steps { forward: true, count: counted })
        } else {
            (ViewerState { pending_count: None, scroll_offset: s.scroll_offset + counted, ..s }, ViewerEffect::Nothing)
        },
        NormalAction::StepUp => if s.panel.focused {
            (t, ViewerEffect::Files { forward: false, count: counted })
        } else if s.stepping {
            (t, ViewerEffect::Steps { forward: false, count: counted })
        } else {
            (
                ViewerState { pending_count: None,
                    scroll_offset: if s.scroll_offset >= counted {
                        s.scroll_offset - counted
                    } else {
                        0
                    },
                    ..s
                },
                ViewerEffect::Nothing,
            )
        },
        NormalAction::NextHunk => (t, ViewerEffect::Hunks { forward: true, count: counted }),
        NormalAction::PrevHunk => (t, ViewerEffect::Hunks { forward: false, count: counted }),
        NormalAction::HunkStart => (t, ViewerEffect::HunkEdge { end: false }),
        NormalAction::HunkEnd => (t, ViewerEffect::HunkEdge { end: true }),
        NormalAction::BlameHint => (t, if s.blame_enabled {
            ViewerEffect::BlameHint
        } else {
            ViewerEffect::Nothing
        }),
        NormalAction::YankChange => (t, ViewerEffect::Yank { hunk: false, patch: false }),
        NormalAction::YankHunk => (t, ViewerEffect::Yank { hunk: true, patch: false }),
        NormalAction::YankChangePatch => (t, ViewerEffect::Yank { hunk: false, patch: true }),
        NormalAction::YankHunkPatch => (t, ViewerEffect::Yank { hunk: true, patch: true }),
        NormalAction::OpenEditor => (t, ViewerEffect::OpenEditor),
        NormalAction::GotoStart => (t, ViewerEffect::GotoEdge { end: false }),
        NormalAction::GotoEnd => (t, ViewerEffect::GotoEdge { end: true }),
        NormalAction::FirstStep => (t, ViewerEffect::StepEdge { last: false }),
        NormalAction::LastStep => (t, ViewerEffect::StepEdge { last: true }),
        NormalAction::PrevFile => (t, ViewerEffect::Files { forward: false, count: plain }),
        NormalAction::NextFile => (t, ViewerEffect::Files { forward: true, count: plain }),
        NormalAction::ToggleAutoplay => (t, if s.stepping {
            ViewerEffect::Autoplay { reverse: false }
        } else {
            ViewerEffect::Nothing
        }),
        NormalAction::ToggleAutoplayReverse => (t, if s.stepping {
            ViewerEffect::Autoplay { reverse: true }
        } else {
            ViewerEffect::Nothing
        }),
        NormalAction::ToggleAnimation => (t, ViewerEffect::ToggleAnimation),
        NormalAction::ToggleStepping => (t, ViewerEffect::ToggleStepping),
        NormalAction::CenterActive => (t, match rows {
            Some(r) => ViewerEffect::Center {
                viewport_height: (if r >= 4 {
                    r - 4
                } else {
                    0
                }) as usize,
            },
            None => ViewerEffect::Nothing,
        }),
        NormalAction::ReplayStep => if s.stepping {
            (t, ViewerEffect::Replay { count: plain })
        } else {
            (s, ViewerEffect::Nothing)
        },
        NormalAction::Refresh => (t, ViewerEffect::Refresh),
        NormalAction::OpenSearchOrFileFilter => (t, if s.panel.focused {
            ViewerEffect::StartFileFilter
        } else {
            ViewerEffect::StartSearch
        }),
        NormalAction::OpenGoto => (t, if s.panel.focused {
            ViewerEffect::Nothing
        } else {
            ViewerEffect::StartGoto
        }),
        NormalAction::SearchNext => (t, ViewerEffect::SearchStep { forward: true }),
        NormalAction::SearchPrev => (t, ViewerEffect::SearchStep { forward: false }),
        NormalAction::NextConflict => (t, ViewerEffect::Conflict { forward: true }),
        NormalAction::PrevConflict => (t, ViewerEffect::Conflict { forward: false }),
        NormalAction::LineComment => (t, ViewerEffect::Comment { hunk: false }),
        NormalAction::HunkComment => (t, ViewerEffect::Comment { hunk: true }),
        NormalAction::ClearComments => (t, ViewerEffect::ClearComments),
        NormalAction::RemoveLineComment => (t, ViewerEffect::RemoveComment { hunk: false }),
        _ => (t, ViewerEffect::RemoveComment { hunk: true }),
    }
}

fn minus_exec(a: usize, b: usize) -> (r: usize)
    ensures
        r == minus(a, b),
{
    if a >= b {
        a - b
    } else {
        0
    }
}

/// The scrolling commands (see [`normal_action_spec`]).
fn scroll_step(s: ViewerState, action: NormalAction, repeat: usize, rows: Option<u16>) -> (r: (
    ViewerState,
    ViewerEffect,
))
    requires
        s.wf(),
        is_scroll(action),
        s.scroll_offset + repeat + MAX_COUNT + 65536 <= usize::MAX,
        s.horizontal_scroll + HORIZONTAL_STEP * (MAX_COUNT + 1) <= usize::MAX,
    ensures
        r == scroll_spec(s, action, repeat, rows),
        r.0.wf(),
{
    reveal(scroll_spec);
    let plain = count_value(s, false, repeat);
    let half: usize = match rows {
        Some(r) => (if r >= 6 {
            r - 6
        } else {
            0
        }) as usize / 2,
        None => 0,
    };
    let offset = match action {
        NormalAction::ScrollUp => minus_exec(s.scroll_offset, plain),
        NormalAction::ScrollDown => s.scroll_offset + plain,
        NormalAction::HalfPageUp => if rows.is_some() {
            minus_exec(s.scroll_offset, half)
        } else {
            s.scroll_offset
        },
        NormalAction::HalfPageDown => if rows.is_some() {
            s.scroll_offset + half
        } else {
            s.scroll_offset
        },
        _ => s.scroll_offset,
    };
    let horizontal = match action {
        NormalAction::LineStart => 0,
        NormalAction::ScrollLeft => if s.line_wrap {
            s.horizontal_scroll
        } else {
            minus_exec(s.horizontal_scroll, 4 * plain)
        },
        NormalAction::ScrollRight => if s.line_wrap {
            s.horizontal_scroll
        } else {
            s.horizontal_scroll + 4 * plain
        },
        NormalAction::LineEnd => if s.line_wrap {
            s.horizontal_scroll
        } else {
            usize::MAX / 2
        },
        _ => s.horizontal_scroll,
    };
    (ViewerState { pending_count: None, scroll_offset: offset, horizontal_scroll: horizontal, ..s }, ViewerEffect::Nothing)
}

/// The toggles of the peek, the path popup and the view mode (see
/// [`normal_action_spec`]).
fn view_toggle_step(s: ViewerState, action: NormalAction, cols: Option<u16>) -> (r: (ViewerState, ViewerEffect))
    requires
        s.wf(),
        action == NormalAction::TogglePeekChange || action == NormalAction::TogglePeekHunk
            || action == NormalAction::TogglePathPopup || action == NormalAction::ToggleViewMode
            || action == NormalAction::ToggleViewModeReverse,
    ensures
        r == panel_toggle_spec(s, action, cols),
        r.0.wf(),
{
    match action {
        NormalAction::TogglePeekChange => {
            proof {
                lemma_peek_change_toggle(s, cols);
            }
            let peek = cycle_peek_change(s.stepping, s.peek, s.modified_step_mode);
            (ViewerState { pending_count: None, peek, ..s }, ViewerEffect::Nothing)
        },
        NormalAction::TogglePeekHunk => {
            proof {
                lemma_peek_hunk_toggle(s, cols);
            }
            let peek = toggle_peek_hunk(s.stepping, s.peek);
            (ViewerState { pending_count: None, peek, ..s }, ViewerEffect::Nothing)
        },
        NormalAction::TogglePathPopup => {
            proof {
                lemma_path_popup_toggle(s, cols);
            }
            (ViewerState { pending_count: None, show_path_popup: !s.show_path_popup, ..s }, ViewerEffect::Nothing)
        },
        _ => mode_toggle_step(s, action, cols),
    }
}

/// The view mode toggles, forward and back (see [`normal_action_spec`]).
fn mode_toggle_step(s: ViewerState, action: NormalAction, cols: Option<u16>) -> (r: (ViewerState, ViewerEffect))
    requires
        s.wf(),
        action == NormalAction::ToggleViewMode || action == NormalAction::ToggleViewModeReverse,
    ensures
        r == panel_toggle_spec(s, action, cols),
        r.0.wf(),
{
    let (m, scroll) = match action {
        NormalAction::ToggleViewMode => {
            proof {
                lemma_mode_toggle(s, cols);
            }
            toggle_view_mode(s.view_mode, s.stepping, s.blame_enabled)
        },
        _ => {
            proof {
                lemma_mode_toggle_reverse(s, cols);
            }
            toggle_view_mode_reverse(s.view_mode, s.stepping, s.blame_enabled)
        },
    };
    (
        ViewerState { pending_count: None, view_mode: m, needs_scroll_to_active: s.needs_scroll_to_active || scroll, ..s },
        ViewerEffect::Nothing,
    )
}

/// The change peek toggle, unfolded.
proof fn lemma_peek_change_toggle(s: ViewerState, cols: Option<u16>)
    ensures
        panel_toggle_spec(s, NormalAction::TogglePeekChange, cols) == (
            ViewerState { pending_count: None, peek: cycle_peek_spec(s.stepping, s.peek, s.modified_step_mode), ..s },
            ViewerEffect::Nothing,
        ),
{
    reveal(panel_toggle_spec);
}

/// The hunk peek toggle, unfolded.
proof fn lemma_peek_hunk_toggle(s: ViewerState, cols: Option<u16>)
    ensures
        panel_toggle_spec(s, NormalAction::TogglePeekHunk, cols) == (
            ViewerState { pending_count: None, peek: toggle_hunk_spec(s.stepping, s.peek), ..s },
            ViewerEffect::Nothing,
        ),
{
    reveal(panel_toggle_spec);
}

/// The path popup toggle, unfolded.
proof fn lemma_path_popup_toggle(s: ViewerState, cols: Option<u16>)
    ensures
        panel_toggle_spec(s, NormalAction::TogglePathPopup, cols) == (
            ViewerState { pending_count: None, show_path_popup: !s.show_path_popup, ..s },
            ViewerEffect::Nothing,
        ),
{
    reveal(panel_toggle_spec);
}

/// The forward view mode toggle, unfolded.
proof fn lemma_mode_toggle(s: ViewerState, cols: Option<u16>)
    ensures
        ({
            let m = toggled_mode(s.view_mode, s.stepping, s.blame_enabled);
            panel_toggle_spec(s, NormalAction::ToggleViewMode, cols) == (
                ViewerState {
                    pending_count: None,
                    view_mode: m,
                    needs_scroll_to_active: s.needs_scroll_to_active || (s.stepping && m == ViewMode::Evolution),
                    ..s
                },
                ViewerEffect::Nothing,
            )
        }),
{
    reveal(panel_toggle_spec);
}

/// The reverse view mode toggle, unfolded.
proof fn lemma_mode_toggle_reverse(s: ViewerState, cols: Option<u16>)
    ensures
        ({
            let m = toggled_mode_reverse(s.view_mode, s.stepping, s.blame_enabled);
            panel_toggle_spec(s, NormalAction::ToggleViewModeReverse, cols) == (
                ViewerState {
                    pending_count: None,
                    view_mode: m,
                    needs_scroll_to_active: s.needs_scroll_to_active || (s.stepping && m == ViewMode::Evolution),
                    ..s
                },
                ViewerEffect::Nothing,
            )
        }),
{
    reveal(panel_toggle_spec);
}

/// The toggles of the file panel, its focus and its width, and of the
/// speed (see [`normal_action_spec`]).
fn layout_toggle_step(s: ViewerState, action: NormalAction, cols: Option<u16>) -> (r: (ViewerState, ViewerEffect))
    requires
        s.wf(),
        action == NormalAction::ToggleFileListFocus || action == NormalAction::IncreaseSpeed
            || action == NormalAction::DecreaseSpeed || action == NormalAction::ToggleFilePanel,
    ensures
        r == panel_toggle_spec(s, action, cols),
        r.0.wf(),
{
    reveal(panel_toggle_spec);
    let t = ViewerState { pending_count: None, ..s };
    match action {
        NormalAction::ToggleFileListFocus => if s.multi_file {
            let focused = !s.panel.focused;
            (
                ViewerState { pending_count: None,
                    panel: PanelVisibility { focused, ..s.panel },
                    file_filter_active: s.file_filter_active && focused,
                    ..s
                },
                ViewerEffect::Nothing,
            )
        } else {
            (t, ViewerEffect::Nothing)
        },
        NormalAction::IncreaseSpeed | NormalAction::DecreaseSpeed => {
            let faster = matches!(action, NormalAction::IncreaseSpeed);
            if s.multi_file && s.panel.focused {
                match cols {
                    Some(c) => {
                        let delta: i16 = if faster {
                            2
                        } else {
                            -2
                        };
                        (
                            ViewerState { pending_count: None,
                                panel_width: resize_file_panel(s.panel_width, delta, c),
                                panel: PanelVisibility { manually_set: true, ..s.panel },
                                ..s
                            },
                            ViewerEffect::Nothing,
                        )
                    },
                    None => (t, ViewerEffect::Nothing),
                }
            } else {
                (t, ViewerEffect::Speed { faster })
            }
        },
        _ => if s.multi_file {
            (ViewerState { pending_count: None, panel: toggle_file_panel(s.panel, s.panel_auto_hidden), ..s }, ViewerEffect::Nothing)
        } else {
            (t, ViewerEffect::Nothing)
        },
    }
}

/// The toggles of the peek, the path popup, the view mode, the file panel
/// and the speed (see [`normal_action_spec`]).
fn panel_toggle_step(s: ViewerState, action: NormalAction, cols: Option<u16>) -> (r: (ViewerState, ViewerEffect))
    requires
        s.wf(),
        is_panel_toggle(action),
    ensures
        r == panel_toggle_spec(s, action, cols),
        r.0.wf(),
{
    match action {
        NormalAction::ToggleFileListFocus | NormalAction::IncreaseSpeed | NormalAction::DecreaseSpeed
        | NormalAction::ToggleFilePanel => layout_toggle_step(s, action, cols),
        _ => view_toggle_step(s, action, cols),
    }
}

/// The toggles of display settings, the help and the pickers (see
/// [`normal_action_spec`]).
fn flag_toggle_step(s: ViewerState, action: NormalAction) -> (r: (ViewerState, ViewerEffect))
    requires
        s.wf(),
        !is_motion(action),
        !is_scroll(action),
        !is_panel_toggle(action),
    ensures
        r == flag_toggle_spec(s, action),
        r.0.wf(),
{
    reveal(flag_toggle_spec);
    let t = ViewerState { pending_count: None, ..s };
    match action {
        NormalAction::ToggleLineWrap => (
            ViewerState { pending_count: None,
                line_wrap: !s.line_wrap,
                horizontal_scroll: if !s.line_wrap {
                    0
                } else {
                    s.horizontal_scroll
                },
                needs_scroll_to_active: true,
                ..s
            },
            ViewerEffect::Nothing,
        ),
        NormalAction::ToggleSyntax => (ViewerState { pending_count: None, syntax_on: !s.syntax_on, ..s }, if s.syntax_on {
            ViewerEffect::SyntaxOff
        } else {
            ViewerEffect::Nothing
        }),
        NormalAction::ToggleEvoSyntax => (
            ViewerState { pending_count: None,
                evo_syntax_full: if matches!(s.view_mode, ViewMode::Evolution) {
                    !s.evo_syntax_full
                } else {
                    s.evo_syntax_full
                },
                ..s
            },
            ViewerEffect::Nothing,
        ),
        NormalAction::ToggleStrikethrough => (
            ViewerState { pending_count: None, strikethrough_deletions: !s.strikethrough_deletions, ..s },
            ViewerEffect::Nothing,
        ),
        NormalAction::ToggleZen => (ViewerState { pending_count: None, zen_mode: !s.zen_mode, ..s }, ViewerEffect::Nothing),
        NormalAction::ToggleFoldContext => (
            ViewerState { pending_count: None,
                fold_context: toggle_fold_context(s.fold_context, s.fold_context_default),
                needs_scroll_to_active: true,
                ..s
            },
            ViewerEffect::Nothing,
        ),
        NormalAction::ToggleHelp => (
            ViewerState { pending_count: None,
                show_help: !s.show_help,
                help_scroll: if !s.show_help {
                    0
                } else {
                    s.help_scroll
                },
                ..s
            },
            ViewerEffect::Nothing,
        ),
        NormalAction::OpenCommandPalette => if s.command_palette_active {
            (ViewerState { pending_count: None, command_palette_active: false, ..s }, ViewerEffect::Nothing)
        } else {
            (
                ViewerState { pending_count: None, command_palette_active: true, file_filter_active: false, file_search_active: false, ..s },
                ViewerEffect::PaletteOpened,
            )
        },
        _ => if s.file_search_active {
            (ViewerState { pending_count: None, file_search_active: false, ..s }, ViewerEffect::Nothing)
        } else {
            (
                ViewerState { pending_count: None, file_search_active: true, file_filter_active: false, command_palette_active: false, ..s },
                ViewerEffect::FileSearchOpened,
            )
        },
    }
}

/// The commands that toggle settings and panels (see
/// [`normal_action_spec`]).
fn toggle_step(s: ViewerState, action: NormalAction, cols: Option<u16>) -> (r: (ViewerState, ViewerEffect))
    requires
        s.wf(),
        !is_motion(action),
        !is_scroll(action),
    ensures
        r == toggle_spec(s, action, cols),
        r.0.wf(),
{
    let panel_toggle = match action {
        NormalAction::TogglePeekChange | NormalAction::TogglePeekHunk | NormalAction::TogglePathPopup
        | NormalAction::ToggleViewMode | NormalAction::ToggleViewModeReverse | NormalAction::ToggleFileListFocus
        | NormalAction::IncreaseSpeed | NormalAction::DecreaseSpeed | NormalAction::ToggleFilePanel => true,
        _ => false,
    };
    if panel_toggle {
        panel_toggle_step(s, action, cols)
    } else {
        flag_toggle_step(s, action)
    }
}

/// Whether a command is a motion command, and whether it scrolls.
fn classify(action: NormalAction) -> (r: (bool, bool))
    ensures
        r == (is_motion(action), is_scroll(action)),
{
    let motion = match action {
        NormalAction::Quit | NormalAction::StepDown | NormalAction::StepUp | NormalAction::NextHunk
        | NormalAction::PrevHunk | NormalAction::HunkStart | NormalAction::HunkEnd | NormalAction::BlameHint
        | NormalAction::YankChange | NormalAction::YankHunk | NormalAction::YankChangePatch
        | NormalAction::YankHunkPatch | NormalAction::OpenEditor | NormalAction::GotoStart
        | NormalAction::GotoEnd | NormalAction::FirstStep | NormalAction::LastStep | NormalAction::PrevFile
        | NormalAction::NextFile | NormalAction::ToggleAutoplay | NormalAction::ToggleAutoplayReverse
        | NormalAction::ToggleAnimation | NormalAction::ToggleStepping | NormalAction::CenterActive
        | NormalAction::ReplayStep | NormalAction::Refresh | NormalAction::OpenSearchOrFileFilter
        | NormalAction::OpenGoto | NormalAction::SearchNext | NormalAction::SearchPrev
        | NormalAction::NextConflict | NormalAction::PrevConflict | NormalAction::LineComment
        | NormalAction::HunkComment | NormalAction::ClearComments | NormalAction::RemoveLineComment
        | NormalAction::RemoveHunkComment => true,
        _ => false,
    };
    let scroll = match action {
        NormalAction::ScrollUp | NormalAction::ScrollDown | NormalAction::HalfPageUp
        | NormalAction::HalfPageDown | NormalAction::ScrollLeft | NormalAction::ScrollRight
        | NormalAction::LineStart | NormalAction::LineEnd => true,
        _ => false,
    };
    (motion, scroll)
}

/// Carries out command `action` (see [`normal_action_spec`]); `repeat` is
/// how many presses of the key came in a row, `rows` and `cols` the
/// terminal's size when it is known.
pub fn apply_normal_action(
    state: &mut ViewerState,
    action: NormalAction,
    repeat: usize,
    rows: Option<u16>,
    cols: Option<u16>,
) -> (effect: ViewerEffect)
    requires
        old(state).wf(),
        old(state).scroll_offset + repeat + MAX_COUNT + 65536 <= usize::MAX,
        old(state).horizontal_scroll + HORIZONTAL_STEP * (MAX_COUNT + 1) <= usize::MAX,
    ensures
        final(state).wf(),
        (*final(state), effect) == normal_action_spec(*old(state), action, repeat, rows, cols),
{
    let s = *state;
    let (is_motion_action, is_scroll_action) = classify(action);
    let (next, effect) = if is_motion_action {
        motion_step(s, action, repeat, rows)
    } else if is_scroll_action {
        scroll_step(s, action, repeat, rows)
    } else {
        toggle_step(s, action, cols)
    };
    *state = next;
    effect
}

/// Every command uses up a typed count, except a replay while not stepping,
/// which changes nothing at all.
pub proof fn law_commands_use_up_the_count(
    s: ViewerState,
    action: NormalAction,
    repeat: usize,
    rows: Option<u16>,
    cols: Option<u16>,
)
    ensures
        !(action == NormalAction::ReplayStep && !s.stepping) ==> normal_action_spec(
            s,
            action,
            repeat,
            rows,
            cols,
        ).0.pending_count is None,
        action == NormalAction::ReplayStep && !s.stepping ==> normal_action_spec(s, action, repeat, rows, cols) == (
            s,
            ViewerEffect::Nothing,
        ),
{
    if is_motion(action) {
        reveal(motion_spec);
    } else if is_scroll(action) {
        reveal(scroll_spec);
    } else if is_panel_toggle(action) {
        reveal(panel_toggle_spec);
    } else {
        reveal(flag_toggle_spec);
    }
}

/// Pressing a display toggle twice restores its setting: zen mode, the
/// struck-through deletions, syntax highlighting, the help and the path
/// popup; and the command palette opened and pressed again is closed, with
/// the file search and the file filter closed too.
pub proof fn law_toggles_twice_restore(s: ViewerState, repeat: usize, rows: Option<u16>, cols: Option<u16>)
    ensures
        ({
            let z = normal_action_spec(normal_action_spec(s, NormalAction::ToggleZen, repeat, rows, cols).0, NormalAction::ToggleZen, repeat, rows, cols).0;
            z.zen_mode == s.zen_mode
        }),
        ({
            let k = normal_action_spec(normal_action_spec(s, NormalAction::ToggleStrikethrough, repeat, rows, cols).0, NormalAction::ToggleStrikethrough, repeat, rows, cols).0;
            k.strikethrough_deletions == s.strikethrough_deletions
        }),
        ({
            let y = normal_action_spec(normal_action_spec(s, NormalAction::ToggleSyntax, repeat, rows, cols).0, NormalAction::ToggleSyntax, repeat, rows, cols).0;
            y.syntax_on == s.syntax_on
        }),
        ({
            let h = normal_action_spec(normal_action_spec(s, NormalAction::ToggleHelp, repeat, rows, cols).0, NormalAction::ToggleHelp, repeat, rows, cols).0;
            h.show_help == s.show_help
        }),
        ({
            let p = normal_action_spec(normal_action_spec(s, NormalAction::TogglePathPopup, repeat, rows, cols).0, NormalAction::TogglePathPopup, repeat, rows, cols).0;
            p.show_path_popup == s.show_path_popup
        }),
        !s.command_palette_active ==> ({
            let c = normal_action_spec(normal_action_spec(s, NormalAction::OpenCommandPalette, repeat, rows, cols).0, NormalAction::OpenCommandPalette, repeat, rows, cols).0;
            &&& !c.command_palette_active
            &&& !c.file_search_active
            &&& !c.file_filter_active
        }),
{
    reveal(flag_toggle_spec);
    reveal(panel_toggle_spec);
}

/// What the mouse did.
#[derive(Debug, Clone, Copy, PartialEq, Eq, Structural)]
pub enum MouseKind {
    LeftDown,
    LeftDrag,
    LeftUp,
    ScrollUp,
    ScrollDown,
    Other,
}

/// What the caller has to carry out after a mouse event.
#[derive(Debug, Clone, Copy, PartialEq, Eq, Structural)]
pub enum MouseEffect {
    /// The help or the path popup is shown: the event is dropped.
    Ignored,
    /// Nothing more.
    Nothing,
    /// Move the selection of the command palette (or of the file search)
    /// one item down or up.
    PickerSelection { file_search: bool, down: bool },
    /// A click in the command palette (or the file search).
    PickerClick { file_search: bool },
    /// A press of the left button in the view: it may start resizing the
    /// file panel, or hit a review preview or the file list, in that order.
    Press,
    /// A drag with the left button: it may resize the file panel.
    Drag,
    /// The left button went up: a resize of the file panel ends.
    Release,
    /// Move to the next or previous file.
    File { forward: bool },
    /// Take a step forward or back.
    Step { forward: bool },
}

/// What a mouse event does: nothing while the help or the path popup is
/// shown; otherwise the typed count is dropped, and an open command palette
/// or file search takes the wheel and the clicks; else the wheel over the
/// file panel moves between files, over a diff that is ready while stepping
/// it steps, and else it scrolls by a line.
pub open spec fn mouse_spec(s: ViewerState, kind: MouseKind, over_file_panel: bool, diff_ready: bool) -> (
    ViewerState,
    MouseEffect,
) {
    let t = ViewerState { pending_count: None, ..s };
    if s.show_help || s.show_path_popup {
        (s, MouseEffect::Ignored)
    } else if s.command_palette_active || s.file_search_active {
        let file_search = !s.command_palette_active;
        (t, match kind {
            MouseKind::ScrollUp => MouseEffect::PickerSelection { file_search, down: false },
            MouseKind::ScrollDown => MouseEffect::PickerSelection { file_search, down: true },
            MouseKind::LeftDown => MouseEffect::PickerClick { file_search },
            _ => MouseEffect::Nothing,
        })
    } else {
        match kind {
            MouseKind::LeftDown => (t, MouseEffect::Press),
            MouseKind::LeftDrag => (t, MouseEffect::Drag),
            MouseKind::LeftUp => (t, MouseEffect::Release),
            MouseKind::ScrollUp => if over_file_panel {
                (t, MouseEffect::File { forward: false })
            } else if s.stepping && diff_ready {
                (t, MouseEffect::Step { forward: false })
            } else {
                (ViewerState { pending_count: None, scroll_offset: sat_sub(s.scroll_offset as int, 1) as usize, ..s }, MouseEffect::Nothing)
            },
            MouseKind::ScrollDown => if over_file_panel {
                (t, MouseEffect::File { forward: true })
            } else if s.stepping && diff_ready {
                (t, MouseEffect::Step { forward: true })
            } else {
                (ViewerState { pending_count: None, scroll_offset: (s.scroll_offset + 1) as usize, ..s }, MouseEffect::Nothing)
            },
            MouseKind::Other => (t, MouseEffect::Nothing),
        }
    }
}

/// Carries out a mouse event (see [`mouse_spec`]); `over_file_panel` is
/// whether the pointer is over the file panel, `diff_ready` whether the
/// selected file's diff can be stepped.
pub fn handle_mouse(state: &mut ViewerState, kind: MouseKind, over_file_panel: bool, diff_ready: bool) -> (r:
    MouseEffect)
    requires
        old(state).wf(),
        old(state).scroll_offset < usize::MAX,
    ensures
        final(state).wf(),
        (*final(state), r) == mouse_spec(*old(state), kind, over_file_panel, diff_ready),
{
    let s = *state;
    if s.show_help || s.show_path_popup {
        return MouseEffect::Ignored;
    }
    *state = ViewerState { pending_count: None, ..s };
    if s.command_palette_active || s.file_search_active {
        let file_search = !s.command_palette_active;
        return match kind {
            MouseKind::ScrollUp => MouseEffect::PickerSelection { file_search, down: false },
            MouseKind::ScrollDown => MouseEffect::PickerSelection { file_search, down: true },
            MouseKind::LeftDown => MouseEffect::PickerClick { file_search },
            _ => MouseEffect::Nothing,
        };
    }
    match kind {
        MouseKind::LeftDown => MouseEffect::Press,
        MouseKind::LeftDrag => MouseEffect::Drag,
        MouseKind::LeftUp => MouseEffect::Release,
        MouseKind::ScrollUp => if over_file_panel {
            MouseEffect::File { forward: false }
        } else if s.stepping && diff_ready {
            MouseEffect::Step { forward: false }
        } else {
            *state = ViewerState { pending_count: None, scroll_offset: scroll_up(s.scroll_offset), ..s };
            MouseEffect::Nothing
        },
        MouseKind::ScrollDown => if over_file_panel {
            MouseEffect::File { forward: true }
        } else if s.stepping && diff_ready {
            MouseEffect::Step { forward: true }
        } else {
            *state = ViewerState { pending_count: None, scroll_offset: scroll_down(s.scroll_offset), ..s };
            MouseEffect::Nothing
        },
        MouseKind::Other => MouseEffect::Nothing,
    }
}

/// How the viewer's loop ends.
#[derive(Debug, Clone, Copy, PartialEq, Eq, Structural)]
pub enum AppExit {
    Quit,
    OpenDashboard,
}

/// After each turn of the viewer's loop: leave for the dashboard when it
/// was asked for, else quit when that was asked for, else go on.
pub open spec fn loop_exit_spec(open_dashboard: bool, should_quit: bool) -> Option<AppExit> {
    if open_dashboard {
        Some(AppExit::OpenDashboard)
    } else if should_quit {
        Some(AppExit::Quit)
    } else {
        None
    }
}

/// Whether the viewer's loop ends after this turn (see [`loop_exit_spec`]).
pub fn loop_exit(open_dashboard: bool, should_quit: bool) -> (r: Option<AppExit>)
    ensures
        r == loop_exit_spec(open_dashboard, should_quit),
{
    if open_dashboard {
        Some(AppExit::OpenDashboard)
    } else if should_quit {
        Some(AppExit::Quit)
    } else {
        None
    }
}

} // verus!
