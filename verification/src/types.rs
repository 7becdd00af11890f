use vstd::prelude::*;

verus! {

/// Animation phase for smooth transitions.
#[derive(Debug, Clone, Copy, PartialEq, Eq, Structural)]
pub enum AnimationPhase {
    /// No animation happening
    Idle,
    /// Fading out the old content
    FadeOut,
    /// Fading in the new content
    FadeIn,
}

/// View mode for displaying diffs.
#[derive(Debug, Clone, Copy, PartialEq, Eq, Structural)]
pub enum ViewMode {
    /// Single pane showing both old and new with markers
    UnifiedPane,
    /// Split view with old on left, new on right
    Split,
    /// Evolution view - shows file morphing, deletions just disappear
    Evolution,
    /// Blame view - code with per-line blame gutter
    Blame,
}

/// Position of a view mode in the cycle
/// unified -> split -> evolution -> blame -> unified.
pub open spec fn view_mode_index(m: ViewMode) -> int {
    match m {
        ViewMode::UnifiedPane => 0,
        ViewMode::Split => 1,
        ViewMode::Evolution => 2,
        ViewMode::Blame => 3,
    }
}

/// The mode at a position of the cycle (taken modulo four).
pub open spec fn view_mode_at(i: int) -> ViewMode {
    let k = i % 4;
    if k == 0 {
        ViewMode::UnifiedPane
    } else if k == 1 {
        ViewMode::Split
    } else if k == 2 {
        ViewMode::Evolution
    } else {
        ViewMode::Blame
    }
}

/// The mode that follows `m` in the cycle.
pub open spec fn view_mode_after(m: ViewMode) -> ViewMode {
    view_mode_at(view_mode_index(m) + 1)
}

/// The mode that precedes `m` in the cycle.
pub open spec fn view_mode_before(m: ViewMode) -> ViewMode {
    view_mode_at(view_mode_index(m) + 3)
}

impl ViewMode {
    /// Cycle to the next view mode.
    pub fn next(self) -> (r: Self)
        ensures
            r == view_mode_after(self),
    {
        match self {
            ViewMode::UnifiedPane => ViewMode::Split,
            ViewMode::Split => ViewMode::Evolution,
            ViewMode::Evolution => ViewMode::Blame,
            ViewMode::Blame => ViewMode::UnifiedPane,
        }
    }

    /// Cycle to the previous view mode.
    pub fn prev(self) -> (r: Self)
        ensures
            r == view_mode_before(self),
    {
        match self {
            ViewMode::UnifiedPane => ViewMode::Blame,
            ViewMode::Split => ViewMode::UnifiedPane,
            ViewMode::Evolution => ViewMode::Split,
            ViewMode::Blame => ViewMode::Evolution,
        }
    }
}

impl Default for ViewMode {
    fn default() -> (r: Self)
        ensures
            r == ViewMode::UnifiedPane,
    {
        ViewMode::UnifiedPane
    }
}

/// `prev` undoes `next` and `next` undoes `prev`.
pub proof fn law_view_mode_next_prev_inverse(m: ViewMode)
    ensures
        view_mode_before(view_mode_after(m)) == m,
        view_mode_after(view_mode_before(m)) == m,
{
}

/// Cycling forward four times returns to the starting mode, and every mode is
/// reached along the way.
pub proof fn law_view_mode_cycle(m: ViewMode, k: ViewMode)
    ensures
        view_mode_after(view_mode_after(view_mode_after(view_mode_after(m)))) == m,
        k == m || k == view_mode_after(m) || k == view_mode_after(view_mode_after(m))
            || k == view_mode_after(view_mode_after(view_mode_after(m))),
{
}

/// Direction of the most recent step through a diff.
#[derive(Debug, Clone, Copy, PartialEq, Eq, Structural)]
pub enum StepDirection {
    Forward,
    Backward,
    /// No step has been taken.
    Stationary,
}

/// Which changes a peek covers.
#[derive(Debug, Clone, Copy, PartialEq, Eq, Structural)]
pub enum PeekScope {
    Change,
    Hunk,
}

/// What a peek shows.
#[derive(Debug, Clone, Copy, PartialEq, Eq, Structural)]
pub enum PeekMode {
    Old,
    Modified,
    Mixed,
}

/// An active peek: its scope and mode.
#[derive(Debug, Clone, Copy, PartialEq, Eq, Structural)]
pub struct PeekState {
    pub scope: PeekScope,
    pub mode: PeekMode,
}

} // verus!
