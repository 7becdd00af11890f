use oyo::cli::git_mode_for_range;
use oyo::multi::{scan_override_patterns, sorted_unique_paths, DirectoryScanOptions, GitDiffMode};
use oyo::search::{line_has_query, match_ranges};

fn strings(items: &[&str]) -> Vec<String> {
    items.iter().map(|s| s.to_string()).collect()
}

#[test]
fn override_patterns_negate_each_glob_and_its_directory() {
    let globs = strings(&[".git/**", "*.log", "/**"]);
    assert_eq!(
        scan_override_patterns(&globs),
        strings(&["!.git", "!.git/**", "!*.log", "!/**"])
    );
}

#[test]
fn default_scan_options_skip_vcs_metadata() {
    let options = DirectoryScanOptions::default();
    assert!(options.git_ignore);
    assert_eq!(options.ignore_globs, strings(&[".git/**", ".jj/**", ".hg/**", ".svn/**"]));
}

#[test]
fn sorted_unique_paths_orders_by_components_and_drops_repeats() {
    let listed = strings(&["b.txt", "a/x", "a.txt", "a/x", "b.txt"]);
    assert_eq!(sorted_unique_paths(listed), strings(&["a/x", "a.txt", "b.txt"]));
    assert!(sorted_unique_paths(Vec::new()).is_empty());
}

#[test]
fn range_with_index_bounds_selects_index_modes() {
    match git_mode_for_range("HEAD~1".to_string(), "INDEX".to_string()) {
        GitDiffMode::IndexRange { from, to_index } => {
            assert_eq!(from, "HEAD~1");
            assert!(to_index);
        }
        other => panic!("unexpected mode {other:?}"),
    }
    match git_mode_for_range("INDEX".to_string(), "main".to_string()) {
        GitDiffMode::IndexRange { from, to_index } => {
            assert_eq!(from, "main");
            assert!(!to_index);
        }
        other => panic!("unexpected mode {other:?}"),
    }
    match git_mode_for_range("a".to_string(), "b".to_string()) {
        GitDiffMode::Range { from, to } => {
            assert_eq!(from, "a");
            assert_eq!(to, "b");
        }
        other => panic!("unexpected mode {other:?}"),
    }
}

#[test]
fn search_matches_report_byte_ranges() {
    let re = regex::Regex::new("b+").unwrap();
    assert_eq!(match_ranges("abbcb", &re), vec![(1, 3), (4, 5)]);
    assert!(line_has_query("abbcb", &re));
    assert!(!line_has_query("xyz", &re));
    assert!(match_ranges("xyz", &re).is_empty());
    let wide = regex::Regex::new("é").unwrap();
    assert_eq!(match_ranges("aéé", &wide), vec![(1, 3), (3, 5)]);
}
