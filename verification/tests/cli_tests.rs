use oyo::cli::{
    directory_scan_options, GitIgnoreMode, detect_input_mode, editor_needs_line, parse_range, render_editor_args, render_editor_template,
    resolve_editor_command, snapshot_rel_path, split_ignore_globs, EditorConfig, InputMode,
};

#[test]
fn parse_range_accepts_double_dot() {
    let (from, to) = parse_range("HEAD~1..HEAD").unwrap();
    assert_eq!(from, "HEAD~1");
    assert_eq!(to, "HEAD");
}

#[test]
fn parse_range_accepts_triple_dot() {
    let (from, to) = parse_range("main...feature").unwrap();
    assert_eq!(from, "main");
    assert_eq!(to, "feature");
}

#[test]
fn parse_range_rejects_empty_bounds() {
    assert!(parse_range("..HEAD").is_err());
    assert!(parse_range("HEAD..").is_err());
    assert!(parse_range("...HEAD").is_err());
    assert!(parse_range("HEAD...").is_err());
}

#[test]
fn parse_range_rejects_extra_separators() {
    assert!(parse_range("A..B..C").is_err());
    assert!(parse_range("A...B..C").is_err());
}

#[test]
fn parse_range_rejects_missing_separator() {
    assert!(parse_range("HEAD").is_err());
}

#[test]
fn range_error_message() {
    let err = parse_range("HEAD").unwrap_err();
    assert_eq!(err.message(), "Range must be in the form A..B or A...B");
}

#[test]
fn detect_input_mode_single_path() {
    let paths = vec!["main.rs".to_string()];
    match detect_input_mode(&paths) {
        InputMode::GitFile { path } => assert_eq!(path, "main.rs"),
        _ => panic!("unexpected input mode"),
    }
}

#[test]
fn detect_input_mode_other_counts() {
    let seven: Vec<String> = (0..7).map(|i| format!("p{}", i)).collect();
    match detect_input_mode(&seven) {
        InputMode::GitExternal { display_path, old_file, new_file } => {
            assert_eq!(display_path, "p0");
            assert_eq!(old_file, "p1");
            assert_eq!(new_file, "p4");
        }
        _ => panic!("unexpected input mode"),
    }
    match detect_input_mode(&["a".to_string(), "b".to_string(), "c".to_string()]) {
        InputMode::TwoPaths { old_path, new_path } => {
            assert_eq!(old_path, "a");
            assert_eq!(new_path, "b");
        }
        _ => panic!("unexpected input mode"),
    }
    assert!(matches!(detect_input_mode(&[]), InputMode::GitUncommitted));
}

#[test]
fn editor_default_args_open_at_line() {
    let config = EditorConfig::default();
    let args = render_editor_args(&config, Some(42), "src/main.rs");
    assert_eq!(args, vec!["+42", "src/main.rs"]);
}

#[test]
fn editor_template_args_replace_file_and_line() {
    let config = EditorConfig {
        command: Some("code".to_string()),
        args: Some(vec!["--goto".to_string(), "{file}:{line}".to_string()]),
        open_at_line: true,
    };
    let args = render_editor_args(&config, Some(42), "src/main.rs");
    assert_eq!(args, vec!["--goto", "src/main.rs:42"]);
}

#[test]
fn editor_details() {
    assert_eq!(render_editor_template("{line}:{line}", None, "f"), "1:1");
    let no_line = EditorConfig { command: None, args: None, open_at_line: false };
    assert_eq!(render_editor_args(&no_line, Some(3), "x"), vec!["x"]);
    assert!(!editor_needs_line(&no_line));
    let templated = EditorConfig { command: None, args: Some(vec!["+{line}".to_string()]), open_at_line: false };
    assert!(editor_needs_line(&templated));
    assert_eq!(resolve_editor_command(&no_line, Some("  ".to_string()), Some(" nano ".to_string())), "nano");
    assert_eq!(resolve_editor_command(&no_line, None, None), "vi");
    let cmd = EditorConfig { command: Some(" hx ".to_string()), args: None, open_at_line: true };
    assert_eq!(resolve_editor_command(&cmd, Some("vim".to_string()), None), "hx");
}

#[test]
fn ignore_globs_are_split_and_trimmed() {
    let values = vec![" *.log | target/** ".to_string(), "||".to_string(), "a".to_string()];
    assert_eq!(split_ignore_globs(&values), vec!["*.log", "target/**", "a"]);
}

#[test]
fn snapshot_paths_keep_normal_components() {
    assert_eq!(snapshot_rel_path("/abs/./dir/../file.rs"), "abs/dir/file.rs");
    assert_eq!(snapshot_rel_path("src//main.rs"), "src/main.rs");
    assert_eq!(snapshot_rel_path("/"), "file");
}

#[test]
fn scan_options_follow_config_then_flags() {
    let config = vec![".git/**".to_string()];
    let args = vec!["target/** | *.log".to_string()];
    let o = directory_scan_options(GitIgnoreMode::Auto, &config, false, false, false, &args);
    assert!(o.git_ignore);
    assert_eq!(o.ignore_globs, vec![".git/**".to_string(), "target/**".to_string(), "*.log".to_string()]);
    assert!(!directory_scan_options(GitIgnoreMode::Auto, &config, true, false, false, &[]).git_ignore);
    assert!(directory_scan_options(GitIgnoreMode::Off, &config, false, true, false, &[]).git_ignore);
    assert!(!directory_scan_options(GitIgnoreMode::On, &config, false, true, true, &[]).git_ignore);
}
