//! What each key and mouse event does in the dashboard that lists the
//! diffs to open: the dashboard's list is the caller's, the decision is
//! made here.

use vstd::prelude::*;
use crate::viewer::MouseKind;

verus! {

/// A dashboard command of the list.
#[derive(Debug, Clone, Copy, PartialEq, Eq, Structural)]
pub enum DashboardAction {
    Quit,
    StartFilter,
    ClearPin,
    TogglePin,
    Accept,
    SelectNext,
    SelectPrev,
    PageDown,
    PageUp,
    SelectFirst,
    SelectLast,
}

/// A dashboard command while the filter is typed.
#[derive(Debug, Clone, Copy, PartialEq, Eq, Structural)]
pub enum DashboardFilterAction {
    Cancel,
    Accept,
    Clear,
    Backspace,
    SelectNext,
    SelectPrev,
    PageDown,
    PageUp,
    SelectFirst,
    SelectLast,
}

/// What the caller does to the dashboard after an event.
#[derive(Debug, Clone, Copy, PartialEq, Eq, Structural)]
pub enum DashboardCommand {
    Nothing,
    /// Leave the dashboard without a choice.
    Quit,
    /// Open the selected entry, when there is one.
    Open,
    StartFilter,
    StopFilter,
    ClearFilter,
    PopFilterChar,
    PushFilterChar { ch: char },
    ClearPin,
    TogglePin,
    /// Move the selection by `delta` rows.
    Move { delta: i8 },
    PageDown,
    PageUp,
    SelectFirst,
    SelectLast,
}

/// What a key does: while the filter is typed, its commands apply, and a
/// key bound to none of them types its character when it has one; else the
/// list's commands apply and other keys do nothing.
pub open spec fn dashboard_key_spec(
    filter_active: bool,
    action: Option<DashboardAction>,
    filter_action: Option<DashboardFilterAction>,
    printable: Option<char>,
) -> DashboardCommand {
    if filter_active {
        match filter_action {
            Some(DashboardFilterAction::Cancel) => DashboardCommand::StopFilter,
            Some(DashboardFilterAction::Accept) => DashboardCommand::Open,
            Some(DashboardFilterAction::Clear) => DashboardCommand::ClearFilter,
            Some(DashboardFilterAction::Backspace) => DashboardCommand::PopFilterChar,
            Some(DashboardFilterAction::SelectNext) => DashboardCommand::Move { delta: 1i8 },
            Some(DashboardFilterAction::SelectPrev) => DashboardCommand::Move { delta: -1i8 },
            Some(DashboardFilterAction::PageDown) => DashboardCommand::PageDown,
            Some(DashboardFilterAction::PageUp) => DashboardCommand::PageUp,
            Some(DashboardFilterAction::SelectFirst) => DashboardCommand::SelectFirst,
            Some(DashboardFilterAction::SelectLast) => DashboardCommand::SelectLast,
            None => match printable {
                Some(ch) => DashboardCommand::PushFilterChar { ch },
                None => DashboardCommand::Nothing,
            },
        }
    } else {
        match action {
            Some(DashboardAction::Quit) => DashboardCommand::Quit,
            Some(DashboardAction::StartFilter) => DashboardCommand::StartFilter,
            Some(DashboardAction::ClearPin) => DashboardCommand::ClearPin,
            Some(DashboardAction::TogglePin) => DashboardCommand::TogglePin,
            Some(DashboardAction::Accept) => DashboardCommand::Open,
            Some(DashboardAction::SelectNext) => DashboardCommand::Move { delta: 1i8 },
            Some(DashboardAction::SelectPrev) => DashboardCommand::Move { delta: -1i8 },
            Some(DashboardAction::PageDown) => DashboardCommand::PageDown,
            Some(DashboardAction::PageUp) => DashboardCommand::PageUp,
            Some(DashboardAction::SelectFirst) => DashboardCommand::SelectFirst,
            Some(DashboardAction::SelectLast) => DashboardCommand::SelectLast,
            None => DashboardCommand::Nothing,
        }
    }
}

/// What a key does in the dashboard (see [`dashboard_key_spec`]);
/// `action` and `filter_action` are what the key is bound to in the list
/// and in the filter, `printable` the character it types.
pub fn dashboard_key(
    filter_active: bool,
    action: Option<DashboardAction>,
    filter_action: Option<DashboardFilterAction>,
    printable: Option<char>,
) -> (r: DashboardCommand)
    ensures
        r == dashboard_key_spec(filter_active, action, filter_action, printable),
{
    if filter_active {
        match filter_action {
            Some(DashboardFilterAction::Cancel) => DashboardCommand::StopFilter,
            Some(DashboardFilterAction::Accept) => DashboardCommand::Open,
            Some(DashboardFilterAction::Clear) => DashboardCommand::ClearFilter,
            Some(DashboardFilterAction::Backspace) => DashboardCommand::PopFilterChar,
            Some(DashboardFilterAction::SelectNext) => DashboardCommand::Move { delta: 1i8 },
            Some(DashboardFilterAction::SelectPrev) => DashboardCommand::Move { delta: -1i8 },
            Some(DashboardFilterAction::PageDown) => DashboardCommand::PageDown,
            Some(DashboardFilterAction::PageUp) => DashboardCommand::PageUp,
            Some(DashboardFilterAction::SelectFirst) => DashboardCommand::SelectFirst,
            Some(DashboardFilterAction::SelectLast) => DashboardCommand::SelectLast,
            None => match printable {
                Some(ch) => DashboardCommand::PushFilterChar { ch },
                None => DashboardCommand::Nothing,
            },
        }
    } else {
        match action {
            Some(DashboardAction::Quit) => DashboardCommand::Quit,
            Some(DashboardAction::StartFilter) => DashboardCommand::StartFilter,
            Some(DashboardAction::ClearPin) => DashboardCommand::ClearPin,
            Some(DashboardAction::TogglePin) => DashboardCommand::TogglePin,
            Some(DashboardAction::Accept) => DashboardCommand::Open,
            Some(DashboardAction::SelectNext) => DashboardCommand::Move { delta: 1i8 },
            Some(DashboardAction::SelectPrev) => DashboardCommand::Move { delta: -1i8 },
            Some(DashboardAction::PageDown) => DashboardCommand::PageDown,
            Some(DashboardAction::PageUp) => DashboardCommand::PageUp,
            Some(DashboardAction::SelectFirst) => DashboardCommand::SelectFirst,
            Some(DashboardAction::SelectLast) => DashboardCommand::SelectLast,
            None => DashboardCommand::Nothing,
        }
    }
}

/// What the mouse does in the dashboard: the wheel moves the selection by
/// three rows; a click that lands on the entry already selected opens it
/// (`changed` is whether the click moved the selection).
pub open spec fn dashboard_mouse_spec(kind: MouseKind, changed: bool) -> DashboardCommand {
    match kind {
        MouseKind::ScrollUp => DashboardCommand::Move { delta: -3i8 },
        MouseKind::ScrollDown => DashboardCommand::Move { delta: 3i8 },
        MouseKind::LeftDown => if changed {
            DashboardCommand::Nothing
        } else {
            DashboardCommand::Open
        },
        _ => DashboardCommand::Nothing,
    }
}

/// What the mouse does in the dashboard (see [`dashboard_mouse_spec`]).
pub fn dashboard_mouse(kind: MouseKind, changed: bool) -> (r: DashboardCommand)
    ensures
        r == dashboard_mouse_spec(kind, changed),
{
    match kind {
        MouseKind::ScrollUp => DashboardCommand::Move { delta: -3i8 },
        MouseKind::ScrollDown => DashboardCommand::Move { delta: 3i8 },
        MouseKind::LeftDown => if changed {
            DashboardCommand::Nothing
        } else {
            DashboardCommand::Open
        },
        _ => DashboardCommand::Nothing,
    }
}

} // verus!
