use oyo::config::{
    builtin_theme_names, config_path_candidates, merge_theme_tokens, Config, DarkLight, DiffConfig,
    DiffHighlightMode, FoldContextMode, StepWrapMode, ThemeConfig, ThemeTokens, UiConfig,
};
use oyo::keybindings::{validate_normal_count_bindings, warn_unknown_modes, KeybindingMode};
use oyo::types::ViewMode;
use oyo::config::{normalize_custom_theme_name, resolve_theme_json_path, ThemeLookup};

fn dl(dark: &str) -> DarkLight {
    DarkLight { dark: dark.to_string(), light: None }
}

#[test]
fn defaults_match_documented_values() {
    let c = Config::default();
    assert!(c.ui.topbar);
    assert_eq!(c.ui.primary_marker, "▶");
    assert_eq!(c.ui.fold_context, FoldContextMode::Off);
    assert_eq!(c.playback.speed, 200);
    assert_eq!(c.files.panel_width, 30);
    assert_eq!(c.navigation.wrap.step, StepWrapMode::NoWrap);
    let d = DiffConfig::default();
    assert_eq!(d.max_bytes, 16 * 1024 * 1024);
    assert_eq!(d.highlight, DiffHighlightMode::Text);
    assert_eq!(d.idle_ms, 250);
    assert!(!FoldContextMode::Off.is_enabled());
    assert!(FoldContextMode::Counts.show_counts());
}

#[test]
fn view_mode_names() {
    let mut c = Config::default();
    assert_eq!(c.parse_view_mode(), None);
    for (name, mode) in [("unified", ViewMode::UnifiedPane), ("sbs", ViewMode::Split), ("evo", ViewMode::Evolution), ("blame", ViewMode::Blame)] {
        c.ui.view_mode = Some(name.to_string());
        assert_eq!(c.parse_view_mode(), Some(mode));
    }
    c.ui.view_mode = Some("Unified".to_string());
    assert_eq!(c.parse_view_mode(), None);
}

#[test]
fn light_mode_ignores_ascii_case() {
    let mut t = ThemeConfig::default();
    assert!(!t.is_light_mode());
    t.mode = Some("LiGhT".to_string());
    assert!(t.is_light_mode());
    t.mode = Some("dark".to_string());
    assert!(!t.is_light_mode());
}

#[test]
fn theme_tokens_merge_overlay_wins() {
    let mut base = ThemeTokens::default();
    base.text = Some(dl("base-text"));
    base.error = Some(dl("base-error"));
    let mut overlay = ThemeTokens::default();
    overlay.error = Some(dl("over-error"));
    merge_theme_tokens(&mut base, &overlay);
    assert_eq!(base.text.as_ref().unwrap().dark, "base-text");
    assert_eq!(base.error.as_ref().unwrap().dark, "over-error");
    assert!(base.primary.is_none());
}

#[test]
fn resolved_theme_layers_config_over_loaded() {
    let mut loaded = ThemeConfig::default();
    loaded.mode = Some("dark".to_string());
    loaded.defs = vec![("green".to_string(), "#0f0".to_string())];
    loaded.theme.text = Some(dl("green"));
    let mut cfg = ThemeConfig::default();
    cfg.name = Some("mine".to_string());
    cfg.defs = vec![("green".to_string(), "#0a0".to_string())];
    cfg.theme.accent = Some(dl("red"));
    let r = cfg.resolved_config(Some(loaded));
    assert_eq!(r.name.as_deref(), Some("mine"));
    assert_eq!(r.mode.as_deref(), Some("dark"));
    assert_eq!(r.defs.len(), 2);
    assert_eq!(r.defs[1].1, "#0a0");
    assert_eq!(r.theme.text.as_ref().unwrap().dark, "green");
    assert_eq!(r.theme.accent.as_ref().unwrap().dark, "red");
    let alone = cfg.resolved_config(None);
    assert!(alone.theme.text.is_none());
}

#[test]
fn builtin_themes_are_listed() {
    let names = builtin_theme_names();
    assert_eq!(names.len(), 23);
    assert_eq!(names[0], "aura");
    assert_eq!(names[22], "zenburn");
    assert!(names.contains(&"tokyonight"));
}

#[test]
fn config_candidates_in_priority_order() {
    let all = config_path_candidates(
        Some("/xdg".to_string()),
        Some("/home/u".to_string()),
        Some("/home/u/.config".to_string()),
    );
    assert_eq!(all, vec!["/xdg/oyo/config.toml", "/home/u/.config/oyo/config.toml"]);
    let mac = config_path_candidates(None, Some("/Users/u".to_string()), Some("/Users/u/Library/Application Support".to_string()));
    assert_eq!(
        mac,
        vec!["/Users/u/.config/oyo/config.toml", "/Users/u/Library/Application Support/oyo/config.toml"]
    );
    assert!(config_path_candidates(None, None, None).is_empty());
    let found = Config::config_paths(Some("/x".to_string()));
    assert_eq!(found[0], "/x/oyo/config.toml");
}

#[test]
fn ui_defaults_keep_markers() {
    let ui = UiConfig::default();
    assert_eq!(ui.extent_marker, "▌");
    assert_eq!(ui.split.align_fill, "╱");
    assert!(ui.stepping);
}

#[test]
fn keybinding_mode_ids() {
    assert_eq!(KeybindingMode::ReviewEditor.id(), "review_editor");
    assert_eq!(KeybindingMode::DashboardFilter.id(), "dashboard_filter");
    let mut warnings = Vec::new();
    warn_unknown_modes(&["normal".to_string(), "bogus".to_string()], &mut warnings);
    assert_eq!(warnings, vec!["Ignoring unknown keybinding mode [keybindings.bogus]"]);
}

#[test]
fn count_digits_are_reserved_in_normal_mode() {
    let ok = vec![("step_down".to_string(), vec!["j".to_string(), "g 0".to_string()])];
    assert_eq!(validate_normal_count_bindings(&ok), Ok(()));
    let bad = vec![
        ("a".to_string(), vec!["x".to_string()]),
        ("jump".to_string(), vec!["g 12".to_string(), "g  3 x".to_string()]),
    ];
    assert_eq!(
        validate_normal_count_bindings(&bad),
        Err("key 'g  3 x' for 'jump' uses reserved count digit '3'".to_string())
    );
}

#[test]
fn custom_theme_names_drop_variant_and_extension() {
    assert_eq!(normalize_custom_theme_name("/themes/nord-dark.json"), "nord");
    assert_eq!(normalize_custom_theme_name("mine-light"), "mine");
    assert_eq!(normalize_custom_theme_name("a-dark-light"), "a-dark");
    assert_eq!(normalize_custom_theme_name(".hidden"), ".hidden");
    assert_eq!(normalize_custom_theme_name(".."), "..");
}

#[test]
fn theme_lookup_candidates() {
    match resolve_theme_json_path("nord", false) {
        ThemeLookup::Search { candidates } => {
            assert_eq!(candidates, vec!["nord-dark.json", "nord.json", "nord-light.json"])
        }
        other => panic!("unexpected {:?}", other),
    }
    match resolve_theme_json_path("nord.JSON", true) {
        ThemeLookup::Search { candidates } => {
            assert_eq!(candidates, vec!["nord-light.json", "nord.json", "nord-dark.json"])
        }
        other => panic!("unexpected {:?}", other),
    }
    match resolve_theme_json_path("nord-light.json", true) {
        ThemeLookup::Search { candidates } => assert_eq!(candidates, vec!["nord-light.json"]),
        other => panic!("unexpected {:?}", other),
    }
    match resolve_theme_json_path("nord-dark", true) {
        ThemeLookup::Search { candidates } => assert_eq!(candidates, vec!["nord-dark.json"]),
        other => panic!("unexpected {:?}", other),
    }
    match resolve_theme_json_path("dir/theme.toml", false) {
        ThemeLookup::Direct { path, with_json } => {
            assert_eq!(path, "dir/theme.toml");
            assert_eq!(with_json.as_deref(), Some("dir/theme.json"));
        }
        other => panic!("unexpected {:?}", other),
    }
    match resolve_theme_json_path("/abs/t.json", false) {
        ThemeLookup::Direct { with_json, .. } => assert_eq!(with_json, None),
        other => panic!("unexpected {:?}", other),
    }
}
