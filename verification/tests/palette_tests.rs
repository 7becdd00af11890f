use oyo::palette::{
    command_palette_entries, command_palette_filtered_entries, file_indices_for_query,
    mention_move_selection, move_selection, PaletteAction,
};
use oyo::types::ViewMode;

#[test]
fn palette_lists_commands_by_context() {
    let plain = command_palette_entries(false, false, false);
    let labels: Vec<&str> = plain.iter().map(|e| e.label.as_str()).collect();
    assert_eq!(
        labels,
        vec![
            "Toggle stepping",
            "Cycle view mode",
            "View: Unified",
            "View: Split",
            "View: Evolution",
            "Toggle line wrap",
            "Toggle context folding",
            "Toggle syntax highlight",
            "Toggle help",
            "Toggle zen mode",
            "Pick commit",
            "Refresh current file",
            "Quit",
        ]
    );
    let full = command_palette_entries(true, true, true);
    assert_eq!(full.len(), 18);
    assert_eq!(full[5].action, PaletteAction::SetViewMode(ViewMode::Blame));
    assert_eq!(full[16].label, "Toggle autoplay (reverse)");
}

#[test]
fn palette_filter_ignores_case_and_clamps_selection() {
    let (entries, sel) = command_palette_filtered_entries(false, false, false, "  VIEW ", 9);
    let labels: Vec<&str> = entries.iter().map(|e| e.label.as_str()).collect();
    assert_eq!(labels, vec!["Cycle view mode", "View: Unified", "View: Split", "View: Evolution"]);
    assert_eq!(sel, 3);
    let (none, sel) = command_palette_filtered_entries(false, false, false, "zzz", 4);
    assert!(none.is_empty());
    assert_eq!(sel, 0);
    let (all, sel) = command_palette_filtered_entries(false, false, false, "", 2);
    assert_eq!(all.len(), 13);
    assert_eq!(sel, 2);
}

#[test]
fn selections_move_within_the_list() {
    assert_eq!(move_selection(2, 5, 1), 3);
    assert_eq!(move_selection(2, 5, 10), 4);
    assert_eq!(move_selection(2, 5, -10), 0);
    assert_eq!(move_selection(9, 5, -1), 3);
    assert_eq!(move_selection(3, 0, 1), 0);
    assert_eq!(mention_move_selection(0, 4, -1), 3);
    assert_eq!(mention_move_selection(3, 4, 1), 0);
    assert_eq!(mention_move_selection(1, 4, 6), 3);
    assert_eq!(mention_move_selection(2, 0, 1), 2);
}

#[test]
fn file_search_matches_names() {
    let names: Vec<String> = vec!["src/Main.rs".into(), "README.md".into(), "src/lib.rs".into()];
    assert_eq!(file_indices_for_query(&names, "src"), vec![0, 2]);
    assert_eq!(file_indices_for_query(&names, "MAIN"), vec![0]);
    assert_eq!(file_indices_for_query(&names, ""), vec![0, 1, 2]);
    assert!(file_indices_for_query(&names, "x").is_empty());
}
