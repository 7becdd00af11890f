//! Peeking at the text a modified line had before: the peek state the
//! viewer keeps while stepping, how the peek commands change it, which lines
//! a peek shows differently, and the text a yank of a line copies.

use vstd::prelude::*;
use crate::config::ModifiedStepMode;
use crate::diff::{changes_view, DiffNavigator};
use crate::view::{LineKind, ViewLine};
use crate::view_metrics::{
    change_text, inline_text_for_change, modified_only_text_for_change, old_text_for_change, ChangeTextKind,
};

verus! {

/// What a peek covers: the active change or the whole current hunk.
#[derive(Debug, Clone, Copy, PartialEq, Eq, Structural)]
pub enum PeekScope {
    Change,
    Hunk,
}

/// How a peeked line is shown: its old text, its new text, or both mixed.
#[derive(Debug, Clone, Copy, PartialEq, Eq, Structural)]
pub enum PeekMode {
    Old,
    Modified,
    Mixed,
}

/// A peek that is on.
#[derive(Debug, Clone, Copy, PartialEq, Eq, Structural)]
pub struct PeekState {
    pub scope: PeekScope,
    pub mode: PeekMode,
}

/// How a modified line is shown when no peek is on, as configured.
pub open spec fn base_mode_spec(step_mode: ModifiedStepMode) -> PeekMode {
    if step_mode == ModifiedStepMode::Modified {
        PeekMode::Modified
    } else {
        PeekMode::Mixed
    }
}

/// How a modified line is shown when no peek is on (see [`base_mode_spec`]).
pub fn base_modified_view_mode(step_mode: ModifiedStepMode) -> (r: PeekMode)
    ensures
        r == base_mode_spec(step_mode),
{
    if matches!(step_mode, ModifiedStepMode::Modified) {
        PeekMode::Modified
    } else {
        PeekMode::Mixed
    }
}

/// The mode that follows in the peek cycle: modified, old, mixed, modified.
pub open spec fn next_mode(m: PeekMode) -> PeekMode {
    match m {
        PeekMode::Modified => PeekMode::Old,
        PeekMode::Old => PeekMode::Mixed,
        PeekMode::Mixed => PeekMode::Modified,
    }
}

/// Peeking at the active change moves its mode one step along the cycle,
/// starting from the configured mode when no change peek is on; landing back
/// on the configured mode turns the peek off. Nothing changes when not
/// stepping.
pub open spec fn cycle_peek_spec(stepping: bool, peek: Option<PeekState>, step_mode: ModifiedStepMode) -> Option<
    PeekState,
> {
    if !stepping {
        peek
    } else {
        let base = base_mode_spec(step_mode);
        let current = match peek {
            Some(p) => if p.scope == PeekScope::Change {
                p.mode
            } else {
                base
            },
            None => base,
        };
        let next = next_mode(current);
        if next == base {
            None
        } else {
            Some(PeekState { scope: PeekScope::Change, mode: next })
        }
    }
}

/// The peek state after the change-peek command (see [`cycle_peek_spec`]).
pub fn cycle_peek_change(stepping: bool, peek: Option<PeekState>, step_mode: ModifiedStepMode) -> (r: Option<
    PeekState,
>)
    ensures
        r == cycle_peek_spec(stepping, peek, step_mode),
{
    if !stepping {
        return peek;
    }
    let base = base_modified_view_mode(step_mode);
    let current = match peek {
        Some(PeekState { scope: PeekScope::Change, mode }) => mode,
        _ => base,
    };
    let next = match current {
        PeekMode::Modified => PeekMode::Old,
        PeekMode::Old => PeekMode::Mixed,
        PeekMode::Mixed => PeekMode::Modified,
    };
    if next == base {
        None
    } else {
        Some(PeekState { scope: PeekScope::Change, mode: next })
    }
}

/// The hunk peek shows the current hunk's old text; the command turns it on,
/// or off when it is on. Nothing changes when not stepping.
pub open spec fn toggle_hunk_spec(stepping: bool, peek: Option<PeekState>) -> Option<PeekState> {
    let on = PeekState { scope: PeekScope::Hunk, mode: PeekMode::Old };
    if !stepping {
        peek
    } else if peek == Some(on) {
        None
    } else {
        Some(on)
    }
}

/// The peek state after the hunk-peek command (see [`toggle_hunk_spec`]).
pub fn toggle_peek_hunk(stepping: bool, peek: Option<PeekState>) -> (r: Option<PeekState>)
    ensures
        r == toggle_hunk_spec(stepping, peek),
{
    if !stepping {
        return peek;
    }
    let on = PeekState { scope: PeekScope::Hunk, mode: PeekMode::Old };
    if peek == Some(on) {
        None
    } else {
        Some(on)
    }
}

/// The line is one a peek that is on covers: the active change's primary
/// line, or a line of the current hunk.
pub open spec fn peek_covers(peek: PeekState, line: ViewLine, current_hunk: usize) -> bool {
    match peek.scope {
        PeekScope::Change => line.is_primary_active,
        PeekScope::Hunk => line.hunk_index == Some(current_hunk),
    }
}

/// Whether a peek that is on shows the line differently (see
/// [`peek_covers`]).
pub fn is_peek_override_for_line(stepping: bool, peek: Option<PeekState>, line: &ViewLine, current_hunk: usize) -> (r:
    bool)
    ensures
        r == (stepping && (match peek {
            Some(p) => peek_covers(p, *line, current_hunk),
            None => false,
        })),
{
    if !stepping {
        return false;
    }
    match peek {
        None => false,
        Some(p) => match p.scope {
            PeekScope::Change => line.is_primary_active,
            PeekScope::Hunk => line.hunk_index == Some(current_hunk),
        },
    }
}

/// How the line is shown while stepping: as a peek that is on covers it
/// (the hunk peek always shows old text); with no peek on, the active
/// change's primary line, when modified, in the configured mode; other lines
/// as usual.
pub open spec fn peek_mode_spec(
    stepping: bool,
    peek: Option<PeekState>,
    line: ViewLine,
    current_hunk: usize,
    step_mode: ModifiedStepMode,
) -> Option<PeekMode> {
    if !stepping {
        None
    } else {
        match peek {
            Some(p) => if peek_covers(p, line, current_hunk) {
                Some(
                    match p.scope {
                        PeekScope::Change => p.mode,
                        PeekScope::Hunk => PeekMode::Old,
                    },
                )
            } else {
                None
            },
            None => if line.is_primary_active && (line.kind == LineKind::Modified || line.kind
                == LineKind::PendingModify) {
                Some(base_mode_spec(step_mode))
            } else {
                None
            },
        }
    }
}

/// How the line is shown (see [`peek_mode_spec`]).
pub fn peek_mode_for_line(
    stepping: bool,
    peek: Option<PeekState>,
    line: &ViewLine,
    current_hunk: usize,
    step_mode: ModifiedStepMode,
) -> (r: Option<PeekMode>)
    ensures
        r == peek_mode_spec(stepping, peek, *line, current_hunk, step_mode),
{
    if !stepping {
        return None;
    }
    if let Some(p) = peek {
        match p.scope {
            PeekScope::Change => {
                if line.is_primary_active {
                    return Some(p.mode);
                }
            },
            PeekScope::Hunk => {
                if line.hunk_index == Some(current_hunk) {
                    return Some(PeekMode::Old);
                }
            },
        }
        return None;
    }
    if line.is_primary_active && matches!(line.kind, LineKind::Modified | LineKind::PendingModify) {
        return Some(base_modified_view_mode(step_mode));
    }
    None
}

/// The text of a modified line as `which` shows it, taken from the change at
/// the line's change id read as a position in the change list; none for
/// other lines, when there is no such change, or when the text is empty.
pub open spec fn line_text_spec(
    cs: Seq<crate::diff::ChangeModel>,
    line: ViewLine,
    which: ChangeTextKind,
) -> Option<Seq<char>> {
    if !(line.kind == LineKind::Modified || line.kind == LineKind::PendingModify) || line.change_id >= cs.len() {
        None
    } else {
        let t = change_text(cs[line.change_id as int].spans, which);
        if t.len() == 0 {
            None
        } else {
            Some(t)
        }
    }
}

/// The old text of a modified line (see [`line_text_spec`]).
pub fn peek_text_for_line(nav: &DiffNavigator, line: &ViewLine) -> (r: Option<String>)
    ensures
        match r {
            Some(t) => line_text_spec(nav@.diff.changes, *line, ChangeTextKind::Old) == Some(t@),
            None => line_text_spec(nav@.diff.changes, *line, ChangeTextKind::Old) is None,
        },
{
    if !matches!(line.kind, LineKind::Modified | LineKind::PendingModify) {
        return None;
    }
    let diff = nav.diff();
    if line.change_id >= diff.changes.len() {
        return None;
    }
    let change = &diff.changes[line.change_id];
    assert(change@ == nav@.diff.changes[line.change_id as int]);
    let text = old_text_for_change(change);
    if text.as_str().is_empty() {
        None
    } else {
        Some(text)
    }
}

/// The new text of a modified line (see [`line_text_spec`]).
pub fn modified_only_text_for_line(nav: &DiffNavigator, line: &ViewLine) -> (r: Option<String>)
    ensures
        match r {
            Some(t) => line_text_spec(nav@.diff.changes, *line, ChangeTextKind::Modified) == Some(t@),
            None => line_text_spec(nav@.diff.changes, *line, ChangeTextKind::Modified) is None,
        },
{
    if !matches!(line.kind, LineKind::Modified | LineKind::PendingModify) {
        return None;
    }
    let diff = nav.diff();
    if line.change_id >= diff.changes.len() {
        return None;
    }
    let change = &diff.changes[line.change_id];
    assert(change@ == nav@.diff.changes[line.change_id as int]);
    let text = modified_only_text_for_change(change);
    if text.as_str().is_empty() {
        None
    } else {
        Some(text)
    }
}

/// The text a yank of the line copies: the text the line is peeked in when
/// a peek mode applies and that text is there (the mixed mode takes the
/// change's inline text, from the change at the line's change id read as a
/// position), else the line as shown.
pub open spec fn yank_text_spec(
    cs: Seq<crate::diff::ChangeModel>,
    mode: Option<PeekMode>,
    line: ViewLine,
) -> Seq<char> {
    let peeked: Option<Seq<char>> = match mode {
        Some(PeekMode::Old) => line_text_spec(cs, line, ChangeTextKind::Old),
        Some(PeekMode::Modified) => line_text_spec(cs, line, ChangeTextKind::Modified),
        Some(PeekMode::Mixed) => if line.change_id < cs.len() && change_text(
            cs[line.change_id as int].spans,
            ChangeTextKind::Inline,
        ).len() > 0 {
            Some(change_text(cs[line.change_id as int].spans, ChangeTextKind::Inline))
        } else {
            None
        },
        None => None,
    };
    match peeked {
        Some(t) => t,
        None => line.content@,
    }
}

/// The text a yank of the line copies (see [`yank_text_spec`]).
pub fn text_for_yank(
    nav: &DiffNavigator,
    stepping: bool,
    peek: Option<PeekState>,
    line: &ViewLine,
    current_hunk: usize,
    step_mode: ModifiedStepMode,
) -> (r: String)
    ensures
        r@ == yank_text_spec(
            nav@.diff.changes,
            peek_mode_spec(stepping, peek, *line, current_hunk, step_mode),
            *line,
        ),
{
    if let Some(mode) = peek_mode_for_line(stepping, peek, line, current_hunk, step_mode) {
        match mode {
            PeekMode::Old => {
                if let Some(text) = peek_text_for_line(nav, line) {
                    return text;
                }
            },
            PeekMode::Modified => {
                if let Some(text) = modified_only_text_for_line(nav, line) {
                    return text;
                }
            },
            PeekMode::Mixed => {
                let diff = nav.diff();
                if line.change_id < diff.changes.len() {
                    let change = &diff.changes[line.change_id];
                    assert(change@ == nav@.diff.changes[line.change_id as int]);
                    let text = inline_text_for_change(change);
                    if !text.as_str().is_empty() {
                        return text;
                    }
                }
            },
        }
    }
    line.content.clone()
}

/// Three change-peek commands in a row come back to the peek state they
/// started from, for every state the command can lead to: no peek, or a
/// change peek in a mode other than the configured one.
pub proof fn law_peek_cycle_returns(peek: Option<PeekState>, step_mode: ModifiedStepMode)
    requires
        match peek {
            None => true,
            Some(p) => p.scope == PeekScope::Change && p.mode != base_mode_spec(step_mode),
        },
    ensures
        cycle_peek_spec(true, cycle_peek_spec(true, cycle_peek_spec(true, peek, step_mode), step_mode), step_mode)
            == peek,
{
}

/// Two hunk-peek commands in a row undo each other, from no peek or from
/// the hunk peek (the only hunk peek the command makes).
pub proof fn law_hunk_peek_toggle_twice(peek: Option<PeekState>)
    requires
        match peek {
            Some(p) => p == (PeekState { scope: PeekScope::Hunk, mode: PeekMode::Old }),
            None => true,
        },
    ensures
        toggle_hunk_spec(true, toggle_hunk_spec(true, peek)) == peek,
{
}

} // verus!
