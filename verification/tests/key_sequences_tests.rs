use oyo::key_sequences::{
    apply_overrides, press_in_mode, press_key, settle_bindings, validate_keys, BoundSequence, ConfiguredKey,
    Dispatch, SequenceState,
};
use oyo::keys::{KeyCode, KeyMods, KeyPress};

const QUIT: usize = 0;
const STEP_DOWN: usize = 1;
const GOTO_START: usize = 2;
const BLAME_HINT: usize = 3;
const TOGGLE_HELP: usize = 4;
const HELP_CLOSE: usize = 0;

fn key(c: char) -> KeyPress {
    KeyPress {
        code: KeyCode::Char(c),
        mods: KeyMods { shift: false, control: false, alt: false, super_key: false, hyper: false, meta: false },
    }
}

fn bound(action: usize, keys: &str) -> BoundSequence {
    BoundSequence { action, keys: keys.chars().filter(|c| *c != ' ').map(key).collect() }
}

/// Part of the default normal-mode bindings: `q`, `j`, `g g`, `g b`, `?`.
fn normal_defaults() -> Vec<BoundSequence> {
    vec![
        bound(QUIT, "q"),
        bound(STEP_DOWN, "j"),
        bound(GOTO_START, "g g"),
        bound(BLAME_HINT, "g b"),
        bound(TOGGLE_HELP, "?"),
    ]
}

fn configured(id: &str, keys: &str) -> ConfiguredKey {
    ConfiguredKey {
        id: id.to_string(),
        key: keys.to_string(),
        parsed: Ok(keys.chars().filter(|c| *c != ' ').map(key).collect()),
    }
}

#[test]
fn sequence_prefix_waits_and_failed_sequence_retries_latest_key() {
    let bindings = normal_defaults();
    let mut waiting = Vec::new();
    assert_eq!(press_key(&bindings, &mut waiting, key('g')), Dispatch::Pending);
    assert_eq!(press_key(&bindings, &mut waiting, key('j')), Dispatch::Matched { action: STEP_DOWN });
    assert!(waiting.is_empty());
}

#[test]
fn switching_modes_clears_pending_sequence() {
    let normal = normal_defaults();
    let help = vec![bound(HELP_CLOSE, "q")];
    let mut state = SequenceState { waiting: vec![Vec::new(), Vec::new()], active: None };
    assert_eq!(press_in_mode(&mut state, 0, &normal, key('g')), Dispatch::Pending);
    assert_eq!(state.active, Some(0));
    assert_eq!(press_in_mode(&mut state, 1, &help, key('q')), Dispatch::Matched { action: HELP_CLOSE });
    assert_eq!(state.active, None);
    assert_eq!(press_in_mode(&mut state, 0, &normal, key('g')), Dispatch::Pending);
}

#[test]
fn completed_sequences_match_their_action() {
    let bindings = normal_defaults();
    let mut waiting = Vec::new();
    assert_eq!(press_key(&bindings, &mut waiting, key('g')), Dispatch::Pending);
    assert_eq!(press_key(&bindings, &mut waiting, key('g')), Dispatch::Matched { action: GOTO_START });
    assert_eq!(press_key(&bindings, &mut waiting, key('x')), Dispatch::Unmatched);
    assert_eq!(press_key(&bindings, &mut waiting, key('g')), Dispatch::Pending);
    assert_eq!(press_key(&bindings, &mut waiting, key('x')), Dispatch::Unmatched);
    assert!(waiting.is_empty());
}

#[test]
fn duplicate_effective_key_falls_back_mode_to_defaults() {
    let keys = vec![configured("quit", "q"), configured("toggle_help", "q")];
    let problem = validate_keys(&keys);
    assert_eq!(problem, Err("key 'q' for 'toggle_help' conflicts with 'q' for 'quit'".to_string()));
    let mut warnings = Vec::new();
    let chosen = settle_bindings("normal", "configured", "defaults", problem, &mut warnings);
    assert_eq!(chosen, "defaults");
    assert!(warnings.iter().any(|w| w.contains("using defaults for this mode")));
}

#[test]
fn prefix_conflict_falls_back_mode_to_defaults() {
    let keys = vec![configured("blame_hint", "g b"), configured("goto_start", "g")];
    let problem = validate_keys(&keys);
    assert_eq!(problem, Err("key 'g' for 'goto_start' conflicts with 'g b' for 'blame_hint'".to_string()));
    let mut warnings = Vec::new();
    let chosen = settle_bindings("normal", 1, 0, problem, &mut warnings);
    assert_eq!(chosen, 0);
    assert_eq!(
        warnings,
        vec!["Ignoring [keybindings.normal]: key 'g' for 'goto_start' conflicts with 'g b' for 'blame_hint'; using defaults for this mode"
            .to_string()]
    );
}

#[test]
fn unreadable_keys_are_reported() {
    let keys = vec![
        configured("quit", "q"),
        ConfiguredKey { id: "step_down".to_string(), key: "ctrl-".to_string(), parsed: Err("no key".to_string()) },
    ];
    assert_eq!(validate_keys(&keys), Err("invalid key 'ctrl-' for 'step_down': no key".to_string()));
    assert_eq!(validate_keys(&vec![configured("quit", "q"), configured("step_down", "j")]), Ok(()));
    let mut warnings = vec!["earlier".to_string()];
    assert_eq!(settle_bindings("normal", 1, 0, Ok(()), &mut warnings), 1);
    assert_eq!(warnings.len(), 1);
}

#[test]
fn keybinding_override_replaces_one_action_and_keeps_other_defaults() {
    let defaults = vec![
        ("quit".to_string(), vec!["q".to_string(), "esc".to_string()]),
        ("step_down".to_string(), vec!["j".to_string(), "down".to_string()]),
    ];
    let overrides = vec![("step_down".to_string(), vec!["u".to_string()])];
    let mut warnings = Vec::new();
    let effective = apply_overrides("normal", &defaults, &overrides, &mut warnings);
    assert!(warnings.is_empty(), "{warnings:?}");
    assert_eq!(effective[0], ("quit".to_string(), vec!["q".to_string(), "esc".to_string()]));
    assert_eq!(effective[1], ("step_down".to_string(), vec!["u".to_string()]));
}

#[test]
fn unknown_override_actions_are_warned_about() {
    let defaults = vec![("quit".to_string(), vec!["q".to_string()])];
    let overrides = vec![("jump".to_string(), vec!["u".to_string()])];
    let mut warnings = Vec::new();
    let effective = apply_overrides("normal", &defaults, &overrides, &mut warnings);
    assert_eq!(warnings, vec!["Ignoring unknown keybinding action 'normal.jump'".to_string()]);
    assert_eq!(effective, defaults);
}
