use oyo::mention::{
    filter_review_file_paths, filter_review_file_paths_builtin, mention_uses_fzf,
    parse_fzf_filter_output, review_mention_candidates, review_mention_file_paths,
    MentionFileScope, MentionFinder, ReviewMentionItem,
};
use oyo::view::{LineKind, ViewLine};

fn strings(items: &[&str]) -> Vec<String> {
    items.iter().map(|s| s.to_string()).collect()
}

fn hunk_line(new_line: Option<usize>, old_line: Option<usize>, hunk: Option<usize>) -> (usize, ViewLine) {
    (
        0,
        ViewLine {
            content: String::new(),
            spans: vec![],
            kind: LineKind::Context,
            old_line,
            new_line,
            is_active: false,
            is_active_change: false,
            is_primary_active: false,
            show_hunk_extent: false,
            change_id: 0,
            hunk_index: hunk,
            has_changes: false,
        },
    )
}

fn inserts(items: &[ReviewMentionItem]) -> Vec<String> {
    items.iter().map(|i| i.insert_text.clone()).collect()
}

#[test]
fn builtin_filter_ranks_file_name_matches_first() {
    let paths = strings(&["src/main.rs", "src/app/mod.rs", "main_helper.rs", "docs/domain.md"]);
    assert_eq!(
        filter_review_file_paths_builtin(&paths, "ma", 10),
        strings(&["main_helper.rs", "src/main.rs", "docs/domain.md"])
    );
    assert_eq!(
        filter_review_file_paths_builtin(&paths, "MA", 2),
        strings(&["main_helper.rs", "src/main.rs"])
    );
    assert!(filter_review_file_paths_builtin(&paths, "zzz", 10).is_empty());
    assert!(filter_review_file_paths_builtin(&paths, "ma", 0).is_empty());
}

#[test]
fn builtin_filter_prefers_path_prefix_over_later_match() {
    let paths = strings(&["lib/src.rs", "src/lib.rs", "x/y.src"]);
    // "src" starts the file name of lib/src.rs (tier 0), starts src/lib.rs
    // (tier 1) and occurs late in x/y.src (tier 2).
    assert_eq!(
        filter_review_file_paths_builtin(&paths, "src", 5),
        strings(&["lib/src.rs", "src/lib.rs", "x/y.src"])
    );
}

#[test]
fn builtin_filter_with_empty_query_keeps_order() {
    let paths = strings(&["b", "a", "c"]);
    assert_eq!(filter_review_file_paths_builtin(&paths, "", 2), strings(&["b", "a"]));
}

#[test]
fn fzf_output_overrides_builtin_ranking() {
    let paths = strings(&["a.rs", "b.rs"]);
    assert_eq!(
        filter_review_file_paths(&paths, "a", 5, Some(strings(&["b.rs"]))),
        strings(&["b.rs"])
    );
    assert_eq!(filter_review_file_paths(&paths, "a", 5, None), strings(&["a.rs"]));
}

#[test]
fn fzf_output_lines_are_cut_to_the_limit() {
    assert_eq!(
        parse_fzf_filter_output("a.rs\n\nb.rs\r\nc.rs\n", 2),
        strings(&["a.rs", "b.rs"])
    );
    assert!(parse_fzf_filter_output("", 3).is_empty());
}

#[test]
fn fzf_is_used_only_when_it_can_help() {
    assert!(!mention_uses_fzf(MentionFinder::Builtin, "a", 3, 40, true));
    assert!(mention_uses_fzf(MentionFinder::Fzf, "a", 3, 40, false));
    assert!(!mention_uses_fzf(MentionFinder::Fzf, "", 3, 40, true));
    assert!(mention_uses_fzf(MentionFinder::Auto, "a", 3, 40, true));
    assert!(!mention_uses_fzf(MentionFinder::Auto, "a", 3, 40, false));
    assert!(!mention_uses_fzf(MentionFinder::Auto, "a", 0, 40, true));
}

#[test]
fn mention_paths_put_current_file_first() {
    let changed = strings(&["a.rs", "b.rs"]);
    let repo = strings(&["b.rs", "c.rs", "a.rs"]);
    assert_eq!(
        review_mention_file_paths(MentionFileScope::Changed, &changed, &repo, "b.rs"),
        strings(&["b.rs", "a.rs"])
    );
    assert_eq!(
        review_mention_file_paths(MentionFileScope::Repo, &changed, &repo, "c.rs"),
        strings(&["c.rs", "a.rs", "b.rs"])
    );
    assert_eq!(
        review_mention_file_paths(MentionFileScope::Repo, &changed, &[], ""),
        strings(&["a.rs", "b.rs"])
    );
}

#[test]
fn empty_query_offers_files_then_line_refs_then_repo_files() {
    let changed = strings(&["a.rs", "b.rs"]);
    let repo = strings(&["a.rs", "c.rs"]);
    let visible = vec![
        hunk_line(Some(3), None, None),
        hunk_line(Some(4), Some(2), Some(0)),
        hunk_line(Some(4), None, Some(0)),
    ];
    let items = review_mention_candidates("", "a.rs", &changed, &visible, MentionFileScope::Repo, &repo, &[]);
    assert_eq!(
        inserts(&items),
        strings(&["@a.rs", "@b.rs", "@a.rs:new:4", "@a.rs:old:2", "@c.rs"])
    );
    assert_eq!(items[2].label, "line  a.rs:new:4");
    assert_eq!(items[0].label, "file  a.rs");
    let changed_only =
        review_mention_candidates("", "a.rs", &changed, &visible, MentionFileScope::Changed, &repo, &[]);
    assert_eq!(changed_only.len(), 4);
}

#[test]
fn query_filters_line_refs_and_caps_them() {
    let visible: Vec<(usize, ViewLine)> =
        (1..=30).map(|n| hunk_line(Some(n), None, Some(0))).collect();
    let items = review_mention_candidates("new:1", "f.rs", &[], &visible, MentionFileScope::Changed, &[], &[]);
    // 1, 10..=19 contain "new:1".
    assert_eq!(items.len(), 11);
    assert_eq!(items[0].insert_text, "@f.rs:new:1");
    assert_eq!(items[10].insert_text, "@f.rs:new:19");
    let all = review_mention_candidates("f.rs", "f.rs", &[], &visible, MentionFileScope::Changed, &[], &strings(&["f.rs"]));
    // one file, then at most sixteen references.
    assert_eq!(all.len(), 17);
    assert_eq!(all[0].insert_text, "@f.rs");
}
