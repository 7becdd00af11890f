use oyo::config::{FoldContextMode, ModifiedStepMode};
use oyo::multi::{DiffSettings, MultiFileDiff};
use oyo::types::ViewMode;
use oyo::viewer::{
    apply_normal_action, handle_mouse, loop_exit, new_viewer_state, AppExit, MouseEffect, MouseKind, NormalAction,
    ViewerEffect, ViewerState,
};

fn single_file_state() -> ViewerState {
    let diff = MultiFileDiff::from_file_pair(
        "a.txt".to_string(),
        "a.txt".to_string(),
        "one\ntwo\n".to_string(),
        "one\nthree\n".to_string(),
        DiffSettings::default(),
    );
    new_viewer_state(&diff, ViewMode::UnifiedPane, 200, false)
}

fn multi_file_state() -> ViewerState {
    let diff = MultiFileDiff::from_file_pairs(
        vec![
            ("a.txt".to_string(), "a\n".to_string(), "b\n".to_string()),
            ("b.txt".to_string(), "c\n".to_string(), "d\n".to_string()),
        ],
        DiffSettings::default(),
    );
    new_viewer_state(&diff, ViewMode::Split, 150, true)
}

#[test]
fn viewer_starts_at_the_top_stepping() {
    let s = single_file_state();
    assert!(!s.multi_file);
    assert!(s.stepping);
    assert_eq!(s.view_mode, ViewMode::UnifiedPane);
    assert_eq!(s.scroll_offset, 0);
    assert_eq!(s.horizontal_scroll, 0);
    assert_eq!(s.pending_count, None);
    assert!(s.panel.visible);
    assert!(!s.panel.focused);
    assert!(!s.panel.manually_set);
    assert_eq!(s.panel_width, 30);
    assert!(s.needs_scroll_to_active);
    assert!(s.syntax_on);
    assert!(!s.evo_syntax_full);
    assert_eq!(s.fold_context, FoldContextMode::Off);
    assert_eq!(s.modified_step_mode, ModifiedStepMode::Mixed);
    assert_eq!(s.peek, None);
    assert_eq!(s.animation_speed, 200);
    assert!(!s.autoplay);
    assert!(!s.autoplay_reverse);

    let m = multi_file_state();
    assert!(m.multi_file);
    assert_eq!(m.view_mode, ViewMode::Split);
    assert_eq!(m.animation_speed, 150);
    assert!(m.autoplay);
}

#[test]
fn quit_closes_the_path_popup_first() {
    let mut s = single_file_state();
    assert_eq!(apply_normal_action(&mut s, NormalAction::TogglePathPopup, 1, None, None), ViewerEffect::Nothing);
    assert!(s.show_path_popup);
    assert_eq!(apply_normal_action(&mut s, NormalAction::Quit, 1, None, None), ViewerEffect::Nothing);
    assert!(!s.show_path_popup);
    assert_eq!(apply_normal_action(&mut s, NormalAction::Quit, 1, None, None), ViewerEffect::Quit);
}

#[test]
fn step_down_steps_scrolls_or_moves_files() {
    let mut s = single_file_state();
    assert_eq!(
        apply_normal_action(&mut s, NormalAction::StepDown, 3, None, None),
        ViewerEffect::Steps { forward: true, count: 3 }
    );
    s.pending_count = Some(7);
    assert_eq!(
        apply_normal_action(&mut s, NormalAction::StepUp, 3, None, None),
        ViewerEffect::Steps { forward: false, count: 7 }
    );
    assert_eq!(s.pending_count, None);

    s.stepping = false;
    assert_eq!(apply_normal_action(&mut s, NormalAction::StepDown, 4, None, None), ViewerEffect::Nothing);
    assert_eq!(s.scroll_offset, 4);
    assert_eq!(apply_normal_action(&mut s, NormalAction::StepUp, 10, None, None), ViewerEffect::Nothing);
    assert_eq!(s.scroll_offset, 0);

    let mut m = multi_file_state();
    assert_eq!(apply_normal_action(&mut m, NormalAction::ToggleFileListFocus, 1, None, None), ViewerEffect::Nothing);
    assert!(m.panel.focused);
    assert_eq!(
        apply_normal_action(&mut m, NormalAction::StepDown, 2, None, None),
        ViewerEffect::Files { forward: true, count: 2 }
    );
}

#[test]
fn file_focus_needs_several_files() {
    let mut s = single_file_state();
    apply_normal_action(&mut s, NormalAction::ToggleFileListFocus, 1, None, None);
    assert!(!s.panel.focused);
    apply_normal_action(&mut s, NormalAction::ToggleFilePanel, 1, None, None);
    assert!(s.panel.visible);
    assert!(!s.panel.manually_set);

    let mut m = multi_file_state();
    apply_normal_action(&mut m, NormalAction::ToggleFilePanel, 1, None, None);
    assert!(!m.panel.visible);
    assert!(m.panel.manually_set);
    apply_normal_action(&mut m, NormalAction::ToggleFilePanel, 1, None, None);
    assert!(m.panel.visible);
}

#[test]
fn file_moves_ignore_key_repeats() {
    let mut m = multi_file_state();
    assert_eq!(
        apply_normal_action(&mut m, NormalAction::NextFile, 5, None, None),
        ViewerEffect::Files { forward: true, count: 1 }
    );
    m.pending_count = Some(2);
    assert_eq!(
        apply_normal_action(&mut m, NormalAction::PrevFile, 5, None, None),
        ViewerEffect::Files { forward: false, count: 2 }
    );
}

#[test]
fn speed_keys_resize_the_focused_file_panel() {
    let mut m = multi_file_state();
    assert_eq!(
        apply_normal_action(&mut m, NormalAction::IncreaseSpeed, 1, None, Some(200)),
        ViewerEffect::Speed { faster: true }
    );
    apply_normal_action(&mut m, NormalAction::ToggleFileListFocus, 1, None, None);
    assert_eq!(apply_normal_action(&mut m, NormalAction::IncreaseSpeed, 1, None, Some(200)), ViewerEffect::Nothing);
    assert_eq!(m.panel_width, 32);
    assert!(m.panel.manually_set);
    apply_normal_action(&mut m, NormalAction::DecreaseSpeed, 1, None, Some(200));
    apply_normal_action(&mut m, NormalAction::DecreaseSpeed, 1, None, Some(200));
    assert_eq!(m.panel_width, 28);
}

#[test]
fn scrolling_keys_move_the_view() {
    let mut s = single_file_state();
    s.stepping = false;
    apply_normal_action(&mut s, NormalAction::ScrollDown, 3, None, None);
    assert_eq!(s.scroll_offset, 1);
    apply_normal_action(&mut s, NormalAction::HalfPageDown, 1, Some(30), None);
    assert_eq!(s.scroll_offset, 13);
    apply_normal_action(&mut s, NormalAction::HalfPageUp, 1, Some(30), None);
    assert_eq!(s.scroll_offset, 1);
    apply_normal_action(&mut s, NormalAction::ScrollUp, 1, None, None);
    assert_eq!(s.scroll_offset, 0);
    apply_normal_action(&mut s, NormalAction::ScrollUp, 1, None, None);
    assert_eq!(s.scroll_offset, 0);

    s.pending_count = Some(3);
    apply_normal_action(&mut s, NormalAction::ScrollRight, 1, None, None);
    assert_eq!(s.horizontal_scroll, 12);
    assert_eq!(s.pending_count, None);
    apply_normal_action(&mut s, NormalAction::ScrollLeft, 1, None, None);
    assert_eq!(s.horizontal_scroll, 8);
    apply_normal_action(&mut s, NormalAction::LineStart, 1, None, None);
    assert_eq!(s.horizontal_scroll, 0);
    apply_normal_action(&mut s, NormalAction::LineEnd, 1, None, None);
    assert_eq!(s.horizontal_scroll, usize::MAX / 2);

    apply_normal_action(&mut s, NormalAction::ToggleLineWrap, 1, None, None);
    assert!(s.line_wrap);
    assert_eq!(s.horizontal_scroll, 0);
    apply_normal_action(&mut s, NormalAction::ScrollRight, 1, None, None);
    assert_eq!(s.horizontal_scroll, 0);
}

#[test]
fn center_leaves_room_for_the_bars() {
    let mut s = single_file_state();
    assert_eq!(
        apply_normal_action(&mut s, NormalAction::CenterActive, 1, Some(24), None),
        ViewerEffect::Center { viewport_height: 20 }
    );
    assert_eq!(apply_normal_action(&mut s, NormalAction::CenterActive, 1, None, None), ViewerEffect::Nothing);
}

#[test]
fn replay_keeps_the_count_when_not_stepping() {
    let mut s = single_file_state();
    s.pending_count = Some(4);
    assert_eq!(apply_normal_action(&mut s, NormalAction::ReplayStep, 1, None, None), ViewerEffect::Replay { count: 4 });
    s.stepping = false;
    s.pending_count = Some(4);
    assert_eq!(apply_normal_action(&mut s, NormalAction::ReplayStep, 1, None, None), ViewerEffect::Nothing);
    assert_eq!(s.pending_count, Some(4));
}

#[test]
fn view_mode_toggles_round_trip() {
    let mut s = single_file_state();
    s.needs_scroll_to_active = false;
    apply_normal_action(&mut s, NormalAction::ToggleViewMode, 1, None, None);
    assert_eq!(s.view_mode, ViewMode::Split);
    assert!(!s.needs_scroll_to_active);
    apply_normal_action(&mut s, NormalAction::ToggleViewMode, 1, None, None);
    assert_eq!(s.view_mode, ViewMode::Evolution);
    assert!(s.needs_scroll_to_active);
    apply_normal_action(&mut s, NormalAction::ToggleViewModeReverse, 1, None, None);
    assert_eq!(s.view_mode, ViewMode::Split);
}

#[test]
fn peeks_cycle_and_close() {
    let mut s = single_file_state();
    apply_normal_action(&mut s, NormalAction::TogglePeekHunk, 1, None, None);
    assert!(s.peek.is_some());
    apply_normal_action(&mut s, NormalAction::TogglePeekHunk, 1, None, None);
    assert_eq!(s.peek, None);
    apply_normal_action(&mut s, NormalAction::TogglePeekChange, 1, None, None);
    assert!(s.peek.is_some());
    apply_normal_action(&mut s, NormalAction::TogglePeekChange, 1, None, None);
    assert!(s.peek.is_some());
    apply_normal_action(&mut s, NormalAction::TogglePeekChange, 1, None, None);
    assert_eq!(s.peek, None);
}

#[test]
fn pickers_exclude_each_other() {
    let mut s = multi_file_state();
    s.file_filter_active = true;
    assert_eq!(
        apply_normal_action(&mut s, NormalAction::OpenCommandPalette, 1, None, None),
        ViewerEffect::PaletteOpened
    );
    assert!(s.command_palette_active);
    assert!(!s.file_filter_active);
    assert_eq!(
        apply_normal_action(&mut s, NormalAction::OpenFileSearch, 1, None, None),
        ViewerEffect::FileSearchOpened
    );
    assert!(s.file_search_active);
    assert!(!s.command_palette_active);
    assert_eq!(apply_normal_action(&mut s, NormalAction::OpenFileSearch, 1, None, None), ViewerEffect::Nothing);
    assert!(!s.file_search_active);
}

#[test]
fn display_toggles_flip_their_setting() {
    let mut s = single_file_state();
    s.help_scroll = 5;
    apply_normal_action(&mut s, NormalAction::ToggleHelp, 1, None, None);
    assert!(s.show_help);
    assert_eq!(s.help_scroll, 0);
    apply_normal_action(&mut s, NormalAction::ToggleZen, 1, None, None);
    assert!(s.zen_mode);
    apply_normal_action(&mut s, NormalAction::ToggleStrikethrough, 1, None, None);
    assert!(s.strikethrough_deletions);
    assert_eq!(apply_normal_action(&mut s, NormalAction::ToggleSyntax, 1, None, None), ViewerEffect::SyntaxOff);
    assert!(!s.syntax_on);
    assert_eq!(apply_normal_action(&mut s, NormalAction::ToggleSyntax, 1, None, None), ViewerEffect::Nothing);
    apply_normal_action(&mut s, NormalAction::ToggleEvoSyntax, 1, None, None);
    assert!(!s.evo_syntax_full);
    s.view_mode = ViewMode::Evolution;
    apply_normal_action(&mut s, NormalAction::ToggleEvoSyntax, 1, None, None);
    assert!(s.evo_syntax_full);
    s.needs_scroll_to_active = false;
    apply_normal_action(&mut s, NormalAction::ToggleFoldContext, 1, None, None);
    assert_eq!(s.fold_context, FoldContextMode::On);
    assert!(s.needs_scroll_to_active);
}

#[test]
fn commands_left_to_the_session_are_reported() {
    let mut s = single_file_state();
    assert_eq!(apply_normal_action(&mut s, NormalAction::OpenEditor, 1, None, None), ViewerEffect::OpenEditor);
    assert_eq!(
        apply_normal_action(&mut s, NormalAction::NextHunk, 2, None, None),
        ViewerEffect::Hunks { forward: true, count: 2 }
    );
    assert_eq!(apply_normal_action(&mut s, NormalAction::BlameHint, 1, None, None), ViewerEffect::Nothing);
    s.blame_enabled = true;
    assert_eq!(apply_normal_action(&mut s, NormalAction::BlameHint, 1, None, None), ViewerEffect::BlameHint);
    assert_eq!(
        apply_normal_action(&mut s, NormalAction::ToggleAutoplay, 1, None, None),
        ViewerEffect::Autoplay { reverse: false }
    );
    assert_eq!(
        apply_normal_action(&mut s, NormalAction::OpenSearchOrFileFilter, 1, None, None),
        ViewerEffect::StartSearch
    );
    assert_eq!(apply_normal_action(&mut s, NormalAction::OpenGoto, 1, None, None), ViewerEffect::StartGoto);
    assert_eq!(
        apply_normal_action(&mut s, NormalAction::YankHunkPatch, 1, None, None),
        ViewerEffect::Yank { hunk: true, patch: true }
    );
}

#[test]
fn mouse_is_ignored_under_the_help() {
    let mut s = single_file_state();
    s.show_help = true;
    s.pending_count = Some(3);
    assert_eq!(handle_mouse(&mut s, MouseKind::ScrollDown, false, true), MouseEffect::Ignored);
    assert_eq!(s.pending_count, Some(3));
}

#[test]
fn mouse_wheel_moves_files_steps_or_scrolls() {
    let mut s = multi_file_state();
    s.pending_count = Some(3);
    assert_eq!(handle_mouse(&mut s, MouseKind::ScrollDown, true, true), MouseEffect::File { forward: true });
    assert_eq!(s.pending_count, None);
    assert_eq!(handle_mouse(&mut s, MouseKind::ScrollUp, false, true), MouseEffect::Step { forward: false });
    assert_eq!(handle_mouse(&mut s, MouseKind::ScrollDown, false, false), MouseEffect::Nothing);
    assert_eq!(s.scroll_offset, 1);
    assert_eq!(handle_mouse(&mut s, MouseKind::ScrollUp, false, false), MouseEffect::Nothing);
    assert_eq!(handle_mouse(&mut s, MouseKind::ScrollUp, false, false), MouseEffect::Nothing);
    assert_eq!(s.scroll_offset, 0);
    assert_eq!(handle_mouse(&mut s, MouseKind::LeftDown, false, false), MouseEffect::Press);
    assert_eq!(handle_mouse(&mut s, MouseKind::LeftUp, false, false), MouseEffect::Release);
}

#[test]
fn open_pickers_take_the_mouse() {
    let mut s = multi_file_state();
    s.file_search_active = true;
    assert_eq!(
        handle_mouse(&mut s, MouseKind::ScrollDown, true, true),
        MouseEffect::PickerSelection { file_search: true, down: true }
    );
    assert_eq!(handle_mouse(&mut s, MouseKind::LeftDown, true, true), MouseEffect::PickerClick { file_search: true });
    s.file_search_active = false;
    s.command_palette_active = true;
    assert_eq!(
        handle_mouse(&mut s, MouseKind::ScrollUp, false, false),
        MouseEffect::PickerSelection { file_search: false, down: false }
    );
    assert_eq!(s.scroll_offset, 0);
}

#[test]
fn the_dashboard_wins_over_quitting() {
    assert_eq!(loop_exit(true, true), Some(AppExit::OpenDashboard));
    assert_eq!(loop_exit(false, true), Some(AppExit::Quit));
    assert_eq!(loop_exit(false, false), None);
}

#[test]
fn toggles_pressed_twice_restore_their_setting() {
    let mut s = single_file_state();
    let before = s;
    for action in [
        NormalAction::ToggleZen,
        NormalAction::ToggleStrikethrough,
        NormalAction::ToggleSyntax,
        NormalAction::ToggleHelp,
        NormalAction::TogglePathPopup,
    ] {
        apply_normal_action(&mut s, action, 1, None, None);
        apply_normal_action(&mut s, action, 1, None, None);
    }
    assert_eq!(s.zen_mode, before.zen_mode);
    assert_eq!(s.strikethrough_deletions, before.strikethrough_deletions);
    assert_eq!(s.syntax_on, before.syntax_on);
    assert_eq!(s.show_help, before.show_help);
    assert_eq!(s.show_path_popup, before.show_path_popup);
    apply_normal_action(&mut s, NormalAction::OpenCommandPalette, 1, None, None);
    apply_normal_action(&mut s, NormalAction::OpenCommandPalette, 1, None, None);
    assert!(!s.command_palette_active);
    assert!(!s.file_search_active);
    assert!(!s.file_filter_active);
}

#[test]
fn every_command_but_an_idle_replay_uses_up_the_count() {
    let mut s = single_file_state();
    s.pending_count = Some(2);
    apply_normal_action(&mut s, NormalAction::ToggleZen, 1, None, None);
    assert_eq!(s.pending_count, None);
    s.pending_count = Some(2);
    apply_normal_action(&mut s, NormalAction::LineStart, 1, None, None);
    assert_eq!(s.pending_count, None);
}
