use oyo::git::{parse_name_status, parse_shortstat, ChangedFile, CommitStats, FileStatus};
use oyo::git::{merge_uncommitted_changes, parse_commit_log, parse_size_output, parse_untracked};
use oyo::text::{parse_i64, parse_u64};

#[test]
fn test_parse_name_status() {
    let output = "M\tsrc/main.rs\nA\tsrc/new.rs\nD\tsrc/old.rs\n";
    let mut changes = Vec::new();
    parse_name_status(output, &mut changes);

    assert_eq!(changes.len(), 3);
    assert_eq!(changes[0].status, FileStatus::Modified);
    assert_eq!(changes[1].status, FileStatus::Added);
    assert_eq!(changes[2].status, FileStatus::Deleted);
}

#[test]
fn name_status_renames_keep_old_path() {
    let mut changes: Vec<ChangedFile> = Vec::new();
    parse_name_status("R100\told.rs\tnew.rs\nX\tweird\n", &mut changes);
    assert_eq!(changes.len(), 1);
    assert_eq!(changes[0].status, FileStatus::Renamed);
    assert_eq!(changes[0].path, "new.rs");
    assert_eq!(changes[0].old_path.as_deref(), Some("old.rs"));
}

#[test]
fn shortstat_lines_are_parsed() {
    assert_eq!(
        parse_shortstat(" 3 files changed, 10 insertions(+), 2 deletions(-)"),
        Some(CommitStats { files_changed: 3, insertions: 10, deletions: 2 })
    );
    assert_eq!(
        parse_shortstat(" 1 file changed, 1 insertion(+)"),
        Some(CommitStats { files_changed: 1, insertions: 1, deletions: 0 })
    );
    assert_eq!(parse_shortstat("not a stat line"), None);
}

#[test]
fn untracked_lines_become_changes() {
    let files = parse_untracked("  a.txt \n\nsub/b.rs\n");
    assert_eq!(files.len(), 2);
    assert_eq!(files[0].path, "a.txt");
    assert_eq!(files[1].path, "sub/b.rs");
    assert_eq!(files[1].status, FileStatus::Untracked);
}

#[test]
fn uncommitted_changes_are_sorted_and_unique() {
    let mk = |p: &str, s: FileStatus| ChangedFile { path: p.to_string(), status: s, old_path: None };
    let merged = merge_uncommitted_changes(vec![
        mk("b.rs", FileStatus::Added),
        mk("a-b", FileStatus::Modified),
        mk("a/b", FileStatus::Modified),
        mk("b.rs", FileStatus::Modified),
        mk("a", FileStatus::Untracked),
    ]);
    let paths: Vec<&str> = merged.iter().map(|c| c.path.as_str()).collect();
    // Component order: "a" < "a/b" < "a-b" < "b.rs".
    assert_eq!(paths, vec!["a", "a/b", "a-b", "b.rs"]);
    // The first change of a path is kept.
    assert_eq!(merged[3].status, FileStatus::Added);
}

#[test]
fn sizes_and_numbers_parse() {
    assert_eq!(parse_size_output(" 1234\n"), Some(1234));
    assert_eq!(parse_size_output("x"), None);
    let c = |s: &str| s.chars().collect::<Vec<char>>();
    assert_eq!(parse_u64(&c("+18446744073709551615")), Some(u64::MAX));
    assert_eq!(parse_u64(&c("18446744073709551616")), None);
    assert_eq!(parse_i64(&c("-9223372036854775808")), Some(i64::MIN));
    assert_eq!(parse_i64(&c("9223372036854775808")), None);
    assert_eq!(parse_i64(&c("-")), None);
    assert_eq!(parse_i64(&c("+42")), Some(42));
}

#[test]
fn commit_log_is_parsed_with_stats() {
    let out = "abc123\u{1f}abc\u{1f}p1 p2\u{1f}Ann\u{1f}1700000000\u{1f}First commit\n 2 files changed, 3 insertions(+)\n\ndef456\u{1f}def\u{1f}\u{1f}Bob\u{1f}oops\u{1f}Second\n";
    let commits = parse_commit_log(out);
    assert_eq!(commits.len(), 2);
    assert_eq!(commits[0].id, "abc123");
    assert_eq!(commits[0].parents, vec!["p1".to_string(), "p2".to_string()]);
    assert_eq!(commits[0].author_time, Some(1700000000));
    assert_eq!(commits[0].stats, Some(CommitStats { files_changed: 2, insertions: 3, deletions: 0 }));
    assert!(commits[1].parents.is_empty());
    assert_eq!(commits[1].author_time, None);
    assert_eq!(commits[1].summary, "Second");
    assert_eq!(commits[1].stats, None);
}
