use oyo::diff::DiffNavigator;
use oyo::git::{ChangedFile, FileStatus};
use oyo::multi::{
    git_load_sources, git_refresh_sources, BlameSource, ContentSource, DiffSettings, DiffStatus,
    DirectoryEntry, FileSide, GitDiffMode, GitFileInput, LoadedContent, MultiDiffError,
    MultiFileDiff,
};
use oyo::git::GitError;
use oyo::types::StepDirection;

fn loaded(text: &str) -> LoadedContent {
    LoadedContent { size: Some(text.len() as u64), bytes: text.as_bytes().to_vec() }
}

fn change(path: &str, status: FileStatus, old_path: Option<&str>) -> ChangedFile {
    ChangedFile { path: path.to_string(), status, old_path: old_path.map(|p| p.to_string()) }
}

#[test]
fn deferred_diff_upgrades_to_ready() {
    let mut settings = DiffSettings::default();
    MultiFileDiff::set_diff_max_bytes(&mut settings, 32);
    MultiFileDiff::set_diff_defer(&mut settings, true);

    let content = "a".repeat(128);
    let mut diff = MultiFileDiff::from_file_pair_bytes(
        "file.txt".to_string(),
        content.clone().into_bytes(),
        content.into_bytes(),
        settings,
    );

    assert_eq!(diff.diff_status(0), DiffStatus::Deferred);

    let settings = diff.settings();
    let (old, new) = diff.file_contents(0).unwrap();
    let computed = MultiFileDiff::compute_diff(old, new, settings);
    diff.apply_diff_result(0, computed);
    assert_eq!(diff.diff_status(0), DiffStatus::Ready);
}

#[test]
fn small_pair_is_ready_with_counts() {
    let diff = MultiFileDiff::from_file_pair(
        "a.txt".to_string(),
        "a.txt".to_string(),
        "one\ntwo\nthree".to_string(),
        "one\n2\nthree\nfour".to_string(),
        DiffSettings::default(),
    );
    assert_eq!(diff.file_count(), 1);
    assert_eq!(diff.diff_status(0), DiffStatus::Ready);
    let f = diff.current_file().unwrap();
    // "two" becomes "2", "three" is kept and "four" is added.
    assert_eq!(f.insertions, 2);
    assert_eq!(f.deletions, 1);
    assert_eq!(diff.total_stats(), (2, 1));
    assert!(!diff.current_file_is_binary());
    assert!(!diff.is_multi_file());
}

#[test]
fn binary_pair_is_disabled() {
    let diff = MultiFileDiff::from_file_pair_bytes(
        "bin".to_string(),
        vec![0u8, 1, 2],
        vec![0u8, 1, 3],
        DiffSettings::default(),
    );
    assert_eq!(diff.diff_status(0), DiffStatus::Disabled);
    assert!(diff.current_file_is_binary());
    assert!(diff.current_file_diff_disabled());
    assert_eq!(diff.total_stats(), (0, 0));
}

#[test]
fn invalid_utf8_is_binary_and_valid_is_text() {
    // A lone continuation byte is not UTF-8: the pair is binary.
    let diff = MultiFileDiff::from_file_pair_bytes(
        "x".to_string(),
        vec![0x80u8],
        b"ok".to_vec(),
        DiffSettings::default(),
    );
    assert!(diff.current_file_is_binary());
    // Valid UTF-8 keeps its text.
    let diff = MultiFileDiff::from_file_pair_bytes(
        "y".to_string(),
        "héllo".as_bytes().to_vec(),
        "héllo wörld".as_bytes().to_vec(),
        DiffSettings::default(),
    );
    let (old, new) = diff.file_contents(0).unwrap();
    assert_eq!(old, "héllo");
    assert_eq!(new, "héllo wörld");
    assert!(!diff.current_old_is_empty());
}

#[test]
fn deferral_off_disables_large_diff() {
    let mut settings = DiffSettings::default();
    MultiFileDiff::set_diff_max_bytes(&mut settings, 4);
    MultiFileDiff::set_diff_defer(&mut settings, false);
    let diff = MultiFileDiff::from_file_pair(
        "a".to_string(),
        "a".to_string(),
        "0123456789".to_string(),
        "0123456789x".to_string(),
        settings,
    );
    assert_eq!(diff.diff_status(0), DiffStatus::Disabled);
    assert!(diff.file_is_large(0));
    assert!(diff.current_file_is_large());
}

#[test]
fn zero_diff_limit_is_raised_to_one() {
    let mut settings = DiffSettings::default();
    MultiFileDiff::set_diff_max_bytes(&mut settings, 0);
    assert_eq!(settings.diff_max_bytes, 1);
    MultiFileDiff::set_full_context_max_bytes(&mut settings, 0);
    assert_eq!(settings.full_context_max_bytes, 1);
}

#[test]
fn next_and_prev_file_move_selection() {
    let mut diff = MultiFileDiff::from_file_pairs(
        vec![
            ("a".to_string(), "1".to_string(), "2".to_string()),
            ("b".to_string(), "1".to_string(), "1".to_string()),
            ("c".to_string(), "x".to_string(), "y".to_string()),
        ],
        DiffSettings::default(),
    );
    assert!(diff.is_multi_file());
    assert_eq!(diff.selected_index, 0);
    assert!(!diff.prev_file());
    assert!(diff.next_file());
    assert!(diff.next_file());
    assert!(!diff.next_file());
    assert_eq!(diff.selected_index, 2);
    assert!(diff.prev_file());
    assert_eq!(diff.selected_index, 1);
    diff.select_file(0);
    assert_eq!(diff.selected_index, 0);
    diff.select_file(7);
    assert_eq!(diff.selected_index, 0);
}

#[test]
fn law_next_then_prev_on_values() {
    let mut diff = MultiFileDiff::from_file_pairs(
        vec![("a".to_string(), "1".to_string(), "2".to_string()), ("b".to_string(), "3".to_string(), "4".to_string())],
        DiffSettings::default(),
    );
    let before = diff.selected_index;
    assert!(diff.next_file());
    assert!(diff.prev_file());
    assert_eq!(diff.selected_index, before);
}

#[test]
fn status_marks_follow_calls() {
    let mut diff = MultiFileDiff::from_file_pair(
        "a".to_string(),
        "a".to_string(),
        "1".to_string(),
        "2".to_string(),
        DiffSettings::default(),
    );
    diff.mark_diff_computing(0);
    assert_eq!(diff.current_file_diff_status(), DiffStatus::Computing);
    diff.mark_diff_failed(0);
    assert_eq!(diff.diff_status(0), DiffStatus::Failed);
    // Past the files nothing changes, and the status reads as ready.
    diff.mark_diff_failed(5);
    assert_eq!(diff.diff_status(5), DiffStatus::Ready);
}

#[test]
fn background_diff_reaches_navigator() {
    let mut settings = DiffSettings::default();
    MultiFileDiff::set_diff_max_bytes(&mut settings, 2);
    let mut diff = MultiFileDiff::from_file_pair(
        "a".to_string(),
        "a".to_string(),
        "x\ny".to_string(),
        "x\nz".to_string(),
        settings,
    );
    assert_eq!(diff.diff_status(0), DiffStatus::Deferred);
    // The placeholder navigator shows the new text unchanged.
    {
        let nav: &DiffNavigator = diff.current_navigator();
        assert_eq!(nav.diff().insertions, 0);
        assert_eq!(nav.diff().changes.len(), 2);
    }
    assert!(diff.current_navigator_is_placeholder());
    let settings = diff.settings();
    let (old, new) = diff.file_contents(0).unwrap();
    let computed = MultiFileDiff::compute_diff(old, new, settings);
    diff.apply_diff_result(0, computed);
    diff.ensure_full_navigator(0);
    assert!(!diff.current_navigator_is_placeholder());
    let nav = diff.current_navigator();
    assert_eq!(nav.diff().insertions, 1);
    assert_eq!(nav.diff().deletions, 1);
    assert_eq!(nav.step_direction(), StepDirection::Stationary);
    assert_eq!(diff.current_file().unwrap().insertions, 1);
}

#[test]
fn git_session_modes_and_ranges() {
    let inputs = vec![GitFileInput {
        change: change("src/a.rs", FileStatus::Modified, None),
        old: loaded("fn a() {}\n"),
        new: loaded("fn a() { 1 }\n"),
    }];
    let diff = MultiFileDiff::from_git_range(
        "/repo".to_string(),
        inputs,
        "0123456789abcdef".to_string(),
        "refs/heads/main".to_string(),
        DiffSettings::default(),
    );
    assert!(diff.is_git_mode());
    assert!(!diff.uses_git_index());
    assert_eq!(diff.repo_root(), Some("/repo"));
    assert_eq!(
        diff.git_range_display(),
        Some(("0123456".to_string(), "refs/he".to_string()))
    );
    assert_eq!(
        diff.blame_sources(),
        Some((
            BlameSource::Commit("0123456789abcdef".to_string()),
            BlameSource::Commit("refs/heads/main".to_string())
        ))
    );

    let staged = MultiFileDiff::from_git_staged("/repo".to_string(), Vec::new(), DiffSettings::default());
    assert!(staged.uses_git_index());
    assert_eq!(staged.git_range_display(), None);
    assert_eq!(
        staged.blame_sources(),
        Some((BlameSource::Commit("HEAD".to_string()), BlameSource::Index))
    );

    let idx = MultiFileDiff::from_git_index_range(
        "/repo".to_string(),
        Vec::new(),
        "HEAD".to_string(),
        false,
        DiffSettings::default(),
    );
    assert_eq!(idx.git_range_display(), Some(("STAGED".to_string(), "HEAD".to_string())));

    let pair = MultiFileDiff::from_file_pair(
        "a".to_string(),
        "a".to_string(),
        String::new(),
        String::new(),
        DiffSettings::default(),
    );
    assert!(!pair.is_git_mode());
    assert_eq!(pair.blame_sources(), None);
}

#[test]
fn git_added_and_deleted_sides_are_empty() {
    let inputs = vec![
        GitFileInput {
            change: change("new.txt", FileStatus::Added, None),
            old: loaded("ignored"),
            new: loaded("hello\n"),
        },
        GitFileInput {
            change: change("gone.txt", FileStatus::Deleted, None),
            old: loaded("bye\n"),
            new: loaded("ignored"),
        },
    ];
    let diff = MultiFileDiff::from_git_changes("/r".to_string(), inputs, DiffSettings::default());
    assert_eq!(diff.file_count(), 2);
    assert_eq!(diff.file_contents(0).unwrap().0, "");
    assert_eq!(diff.file_contents(0).unwrap().1, "hello\n");
    assert_eq!(diff.file_contents(1).unwrap().1, "");
    assert!(diff.current_old_is_empty());
    assert!(!diff.current_new_is_empty());
}

#[test]
fn change_list_changed_compares_as_multisets() {
    let inputs = vec![
        GitFileInput { change: change("a", FileStatus::Modified, None), old: loaded("1"), new: loaded("2") },
        GitFileInput {
            change: change("b", FileStatus::Renamed, Some("old_b")),
            old: loaded("1"),
            new: loaded("1"),
        },
    ];
    let diff = MultiFileDiff::from_git_changes("/r".to_string(), inputs, DiffSettings::default());
    // Same changes in another order: unchanged.
    let same = vec![change("b", FileStatus::Renamed, Some("old_b")), change("a", FileStatus::Modified, None)];
    assert!(!diff.git_change_list_changed(Some(same)));
    // A new status: changed.
    let other = vec![change("a", FileStatus::Added, None), change("b", FileStatus::Renamed, Some("old_b"))];
    assert!(diff.git_change_list_changed(Some(other)));
    // Listing failed: reported unchanged.
    assert!(!diff.git_change_list_changed(None));
    // A file pair session never reports a change.
    let pair = MultiFileDiff::from_file_pair("a".to_string(), "a".to_string(), String::new(), String::new(), DiffSettings::default());
    assert!(!pair.git_change_list_changed(Some(Vec::new())));
}

#[test]
fn refresh_all_from_git_rebuilds_and_clamps() {
    let inputs = vec![
        GitFileInput { change: change("a", FileStatus::Modified, None), old: loaded("1"), new: loaded("2") },
        GitFileInput { change: change("b", FileStatus::Modified, None), old: loaded("1"), new: loaded("3") },
    ];
    let mut diff = MultiFileDiff::from_git_changes("/r".to_string(), inputs, DiffSettings::default());
    diff.select_file(1);
    assert!(!diff.refresh_all_from_git(None));
    assert_eq!(diff.file_count(), 2);
    let fresh = vec![GitFileInput { change: change("c", FileStatus::Added, None), old: loaded(""), new: loaded("z") }];
    assert!(diff.refresh_all_from_git(Some(fresh)));
    assert_eq!(diff.file_count(), 1);
    assert_eq!(diff.selected_index, 0);
    assert_eq!(diff.current_file().unwrap().path, "c");

    let mut pair = MultiFileDiff::from_file_pair("a".to_string(), "a".to_string(), String::new(), String::new(), DiffSettings::default());
    assert!(!pair.refresh_all_from_git(Some(Vec::new())));
}

#[test]
fn refresh_file_rereads_sources() {
    let mut diff = MultiFileDiff::from_file_pair(
        "old.txt".to_string(),
        "/work/new.txt".to_string(),
        "a".to_string(),
        "a".to_string(),
        DiffSettings::default(),
    );
    match diff.refresh_sources(0) {
        Some((ContentSource::FileOrKept { candidate: None }, ContentSource::File { path })) => {
            assert_eq!(path, "/work/new.txt")
        }
        other => panic!("unexpected sources {:?}", other),
    }
    assert!(diff.refresh_sources(3).is_none());
    diff.refresh_current_file(None, Some(loaded("b")));
    let (old, new) = diff.file_contents(0).unwrap();
    assert_eq!(old, "a");
    assert_eq!(new, "b");
    assert_eq!(diff.current_file().unwrap().insertions, 1);
    assert_eq!(diff.current_file().unwrap().deletions, 1);
}

#[test]
fn git_sources_follow_mode_and_status() {
    let renamed = change("new/name.rs", FileStatus::Renamed, Some("old/name.rs"));
    match git_load_sources("/repo", &GitDiffMode::Uncommitted, &renamed) {
        (ContentSource::Commit { rev, path }, ContentSource::File { path: new_path }) => {
            assert_eq!(rev, "HEAD");
            assert_eq!(path, "old/name.rs");
            assert_eq!(new_path, "/repo/new/name.rs");
        }
        other => panic!("unexpected {:?}", other),
    }
    match git_refresh_sources("/repo", &GitDiffMode::Uncommitted, &renamed) {
        (ContentSource::Commit { path, .. }, _) => assert_eq!(path, "old/name.rs"),
        other => panic!("unexpected {:?}", other),
    }
    let added = change("x", FileStatus::Added, None);
    match git_load_sources("/repo", &GitDiffMode::Staged, &added) {
        (ContentSource::Empty, ContentSource::Index { path }) => assert_eq!(path, "x"),
        other => panic!("unexpected {:?}", other),
    }
    let deleted = change("y", FileStatus::Deleted, None);
    let mode = GitDiffMode::IndexRange { from: "main".to_string(), to_index: false };
    match git_load_sources("/repo", &mode, &deleted) {
        (ContentSource::Index { path }, ContentSource::Empty) => assert_eq!(path, "y"),
        other => panic!("unexpected {:?}", other),
    }
}

#[test]
fn directory_sessions_skip_identical_files_and_expose_sources() {
    let entries = vec![
        DirectoryEntry { rel_path: "same.txt".to_string(), old: Some(loaded("x")), new: Some(loaded("x")) },
        DirectoryEntry { rel_path: "changed.txt".to_string(), old: Some(loaded("x")), new: Some(loaded("y")) },
        DirectoryEntry { rel_path: "added.txt".to_string(), old: None, new: Some(loaded("n")) },
    ];
    let diff = MultiFileDiff::from_directories("/old".to_string(), "/new".to_string(), entries, DiffSettings::default());
    assert_eq!(diff.file_count(), 2);
    assert_eq!(diff.files[0].path, "added.txt");
    assert_eq!(diff.files[0].status, FileStatus::Added);
    assert_eq!(diff.files[1].path, "changed.txt");
    assert_eq!(diff.source_path(1, FileSide::Old), Some("/old/changed.txt".to_string()));
    assert_eq!(diff.source_path(1, FileSide::New), Some("/new/changed.txt".to_string()));
    assert_eq!(diff.source_path(9, FileSide::New), None);
}

#[test]
fn explicit_sources_and_roots() {
    let mut diff = MultiFileDiff::from_file_pair_with_sources(
        "shown.txt".to_string(),
        b"1".to_vec(),
        b"2".to_vec(),
        Some("/tmp/left.txt".to_string()),
        None,
        DiffSettings::default(),
    );
    assert_eq!(diff.source_path(0, FileSide::Old), Some("/tmp/left.txt".to_string()));
    assert_eq!(diff.source_path(0, FileSide::New), None);
    diff.set_source_roots("/a".to_string(), "/b/".to_string());
    assert_eq!(diff.source_path(0, FileSide::New), Some("/b/shown.txt".to_string()));
    diff.clear_source_roots();
    assert_eq!(diff.source_path(0, FileSide::New), None);
}

#[test]
fn errors_have_messages() {
    assert_eq!(GitError::NotARepo.message(), "Not a git repository");
    assert_eq!(GitError::CommandFailed("boom".to_string()).message(), "Git command failed: boom");
    assert_eq!(MultiDiffError::Io("gone".to_string()).message(), "IO error: gone");
    assert_eq!(
        MultiDiffError::Git(GitError::Io("x".to_string())).message(),
        "Git error: IO error: x"
    );
}

#[test]
fn file_contents_arc_copies_texts() {
    let diff = MultiFileDiff::from_file_pair("a".to_string(), "a".to_string(), "old".to_string(), "new".to_string(), DiffSettings::default());
    assert_eq!(diff.file_contents_arc(0), Some(("old".to_string(), "new".to_string())));
    assert_eq!(diff.file_contents_arc(1), None);
    assert_eq!(diff.current_step_direction(), StepDirection::Stationary);
}

#[test]
fn long_lines_are_cut_by_bytes() {
    let wide: String = std::iter::repeat('€').take(6000).collect();
    let text = format!("{}\nshort\n", wide);
    assert_eq!(oyo::multi::normalize_text(text), format!("{}…\nshort\n", wide));

    let fits: String = std::iter::repeat('a').take(16384).collect();
    let kept = format!("x\n{}\ny", fits);
    assert_eq!(oyo::multi::normalize_text(kept.clone()), kept);

    let long: String = std::iter::repeat('a').take(16385).collect();
    let cut = oyo::multi::normalize_text(format!("x\n{}\ny", long));
    assert_eq!(cut, format!("x\n{}…\ny", "a".repeat(16384)));
}

#[test]
fn directory_files_come_in_path_order_once_each() {
    let entry = |p: &str, t: &str| DirectoryEntry { rel_path: p.to_string(), old: Some(loaded("x")), new: Some(loaded(t)) };
    let entries = vec![
        entry("b.txt", "1"),
        entry("a/z.txt", "2"),
        entry("a-b.txt", "3"),
        entry("b.txt", "4"),
        entry("a.txt", "5"),
    ];
    let diff = MultiFileDiff::from_directories("/o".to_string(), "/n".to_string(), entries, DiffSettings::default());
    let paths: Vec<&str> = diff.files.iter().map(|f| f.path.as_str()).collect();
    assert_eq!(paths, vec!["a/z.txt", "a-b.txt", "a.txt", "b.txt"]);
    assert_eq!(diff.file_contents(3), Some(("x", "1")));
}
