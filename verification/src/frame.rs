//! The decisions behind each frame of the diff view: whether the cached
//! lines can be shown again, which part of the file to build when they
//! cannot, and where the built lines start.

use vstd::prelude::*;
use crate::config::FoldContextMode;
use crate::playback::AnimationFrame;
use crate::types::{StepDirection, ViewMode};
use crate::view::{LineKind, ViewLine};
use crate::window::{span_of, window_span, ViewWindow};

verus! {

/// Everything the lines of a frame depend on: when two keys are equal the
/// same lines are shown.
#[derive(Debug, Clone, Copy, PartialEq, Eq, Structural)]
pub struct ViewCacheKey {
    pub file_index: usize,
    pub view_mode: ViewMode,
    pub frame: AnimationFrame,
    pub current_step: usize,
    pub active_change: Option<usize>,
    pub cursor_change: Option<usize>,
    pub animating_hunk: Option<usize>,
    pub step_direction: StepDirection,
    pub current_hunk: usize,
    pub last_nav_was_hunk: bool,
    pub hunk_preview_mode: bool,
    pub preview_from_backward: bool,
    pub show_hunk_extent_while_stepping: bool,
    pub placeholder_view: bool,
    pub fold_context: FoldContextMode,
    pub viewport_height: usize,
    pub windowed: bool,
    pub window_start: usize,
}

/// Where the lines of a frame come from.
#[derive(Debug, Clone, Copy, PartialEq, Eq, Structural)]
pub enum ViewSource {
    /// The cached lines are the lines of this frame.
    Cached,
    /// The cached lines of the same file are shown once more while the
    /// build waits for the next frame.
    CachedPending,
    /// The lines are built afresh.
    Build,
}

/// Where the lines of a frame come from, and whether a build is still
/// deferred afterwards: a cache under the same key is shown; else a
/// deferred build shows the cached lines of the same file once and is no
/// longer deferred; else the lines are built.
pub open spec fn view_source_spec(cached: Option<ViewCacheKey>, key: ViewCacheKey, defer: bool, selected: usize) -> (
    ViewSource,
    bool,
) {
    if cached == Some(key) {
        (ViewSource::Cached, defer)
    } else if defer {
        if cached matches Some(c) && c.file_index == selected {
            (ViewSource::CachedPending, false)
        } else {
            (ViewSource::Build, false)
        }
    } else {
        (ViewSource::Build, false)
    }
}

/// Where the lines of a frame come from (see [`view_source_spec`]);
/// `cached` is the key of the cached lines, `defer` whether the build is
/// deferred, `selected` the selected file.
pub fn choose_view_source(cached: Option<ViewCacheKey>, key: ViewCacheKey, defer: bool, selected: usize) -> (r: (
    ViewSource,
    bool,
))
    ensures
        r == view_source_spec(cached, key, defer, selected),
{
    let same = match cached {
        Some(c) => c == key,
        None => false,
    };
    if same {
        (ViewSource::Cached, defer)
    } else if defer {
        let same_file = match cached {
            Some(c) => c.file_index == selected,
            None => false,
        };
        if same_file {
            (ViewSource::CachedPending, false)
        } else {
            (ViewSource::Build, false)
        }
    } else {
        (ViewSource::Build, false)
    }
}

/// The change a large file's view follows while stepping: the active
/// change, else the last applied change, else the first significant one.
pub open spec fn followed_change_spec(active: Option<usize>, applied: Seq<usize>, significant: Seq<usize>) -> Option<
    usize,
> {
    if active is Some {
        active
    } else if applied.len() > 0 {
        Some(applied.last())
    } else if significant.len() > 0 {
        Some(significant[0])
    } else {
        None
    }
}

/// The change a large file's view follows (see [`followed_change_spec`]).
pub fn followed_change(active: Option<usize>, applied: &Vec<usize>, significant: &Vec<usize>) -> (r: Option<usize>)
    ensures
        r == followed_change_spec(active, applied@, significant@),
{
    if active.is_some() {
        active
    } else if applied.len() > 0 {
        Some(applied[applied.len() - 1])
    } else if significant.len() > 0 {
        Some(significant[0])
    } else {
        None
    }
}

/// Which lines of the file a frame builds.
#[derive(Debug, Clone, Copy, PartialEq, Eq, Structural)]
pub enum ViewPlan {
    /// The changes `start..=end` of the view window.
    Range { start: usize, end: usize },
    /// The changes within `radius` of change `change` (in the evolution
    /// view, of the nearest visible change).
    Around { change: usize, radius: usize },
    /// The whole file.
    Whole,
}

/// Which lines a frame builds: the view window when there is one; else,
/// stepping through a large file, the changes around the followed change,
/// within four viewports of at least twenty rows and at least two hundred
/// changes; else the whole file.
pub open spec fn view_plan_spec(
    window: Option<ViewWindow>,
    stepping: bool,
    file_is_large: bool,
    followed: Option<usize>,
    viewport_height: usize,
) -> ViewPlan {
    match window {
        Some(w) => ViewPlan::Range { start: w.start, end: w.end },
        None => if stepping && file_is_large {
            match followed {
                Some(id) => ViewPlan::Around { change: id, radius: window_span(viewport_height) },
                None => ViewPlan::Whole,
            }
        } else {
            ViewPlan::Whole
        },
    }
}

/// Which lines a frame builds (see [`view_plan_spec`]).
pub fn plan_view(
    window: Option<ViewWindow>,
    stepping: bool,
    file_is_large: bool,
    followed: Option<usize>,
    viewport_height: usize,
) -> (r: ViewPlan)
    ensures
        r == view_plan_spec(window, stepping, file_is_large, followed, viewport_height),
{
    match window {
        Some(w) => ViewPlan::Range { start: w.start, end: w.end },
        None => if stepping && file_is_large {
            match followed {
                Some(id) => ViewPlan::Around { change: id, radius: span_of(viewport_height) },
                None => ViewPlan::Whole,
            }
        } else {
            ViewPlan::Whole
        },
    }
}

/// Whether a line shows in the evolution view: a deleted line never; a
/// line about to be deleted only while it animates as the active change
/// and no hunk preview is on; any other line always.
pub open spec fn shows_in_evolution(kind: LineKind, is_active_change: bool, hunk_preview: bool, frame: AnimationFrame) -> bool {
    match kind {
        LineKind::Deleted => false,
        LineKind::PendingDelete => !hunk_preview && frame != AnimationFrame::Idle && is_active_change,
        _ => true,
    }
}

/// Whether some line of a built evolution view shows (see
/// [`shows_in_evolution`]); when none does, a large file's view is built
/// again around the nearest visible change.
pub fn has_visible_line(view: &Vec<ViewLine>, hunk_preview: bool, frame: AnimationFrame) -> (r: bool)
    ensures
        r == exists|i: int|
            0 <= i < view@.len() && #[trigger] shows_in_evolution(
                view@[i].kind,
                view@[i].is_active_change,
                hunk_preview,
                frame,
            ),
{
    let mut i: usize = 0;
    while i < view.len()
        invariant
            i <= view@.len(),
            forall|j: int|
                0 <= j < i ==> !#[trigger] shows_in_evolution(
                    view@[j].kind,
                    view@[j].is_active_change,
                    hunk_preview,
                    frame,
                ),
        decreases view@.len() - i,
    {
        let line = &view[i];
        let shows = match line.kind {
            LineKind::Deleted => false,
            LineKind::PendingDelete => !hunk_preview && frame != AnimationFrame::Idle && line.is_active_change,
            _ => true,
        };
        if shows {
            assert(shows_in_evolution(view@[i as int].kind, view@[i as int].is_active_change, hunk_preview, frame));
            return true;
        }
        i += 1;
    }
    false
}

/// Where the built lines start and how many rows the file has in all: the
/// evolution view's own numbers when it gave some, else the window's.
pub open spec fn applied_window_spec(
    window: Option<ViewWindow>,
    start_override: Option<usize>,
    total_override: Option<usize>,
) -> (usize, Option<usize>) {
    let start = match start_override {
        Some(s) => s,
        None => match window {
            Some(w) => w.start,
            None => 0,
        },
    };
    let total = match total_override {
        Some(t) => Some(t),
        None => match window {
            Some(w) => Some(w.total_len),
            None => None,
        },
    };
    (start, total)
}

/// Where the built lines start (see [`applied_window_spec`]).
pub fn applied_window(window: Option<ViewWindow>, start_override: Option<usize>, total_override: Option<usize>) -> (r: (
    usize,
    Option<usize>,
))
    ensures
        r == applied_window_spec(window, start_override, total_override),
{
    let start = match start_override {
        Some(s) => s,
        None => match window {
            Some(w) => w.start,
            None => 0,
        },
    };
    let total = match total_override {
        Some(t) => Some(t),
        None => match window {
            Some(w) => Some(w.total_len),
            None => None,
        },
    };
    (start, total)
}

/// A frame under the key of the cached lines shows them again, whatever is
/// deferred, and leaves the deferral as it was.
pub proof fn law_same_key_reuses_cache(key: ViewCacheKey, defer: bool, selected: usize)
    ensures
        view_source_spec(Some(key), key, defer, selected) == (ViewSource::Cached, defer),
{
}

/// A deferred build is deferred once only: the next frame under a new key
/// builds its lines.
pub proof fn law_deferral_lasts_one_frame(
    cached: Option<ViewCacheKey>,
    key: ViewCacheKey,
    next_key: ViewCacheKey,
    selected: usize,
)
    requires
        cached != Some(key),
        cached != Some(next_key),
    ensures
        view_source_spec(cached, next_key, view_source_spec(cached, key, true, selected).1, selected).0
            == ViewSource::Build,
{
}

} // verus!
