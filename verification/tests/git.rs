use gitview::git::{spawn_words, ChangeKind, FileEntry, GitError, GitOut, ParseError, StageState};
use gitview::git_order::sort_entries;
use gitview::git_parse::{
    first_line, parse_log_text, parse_name_status, parse_number, parse_numstat,
    parse_porcelain_v2, untracked_stats,
};
use gitview::git_repo::{Ancestor, Repo, StatusStep, Trunk};
use gitview::git_stat::{merge_stat, Stats};

#[test]
fn porcelain_ordinary_records() {
    // staged-only, unstaged-only, partial
    let raw = b"1 M. N... 100644 100644 100644 abc def staged.rs\0\
                1 .M N... 100644 100644 100644 abc def unstaged.rs\0\
                1 MM N... 100644 100644 100644 abc def partial.rs\0";
    let entries = parse_porcelain_v2(raw).unwrap();
    assert_eq!(entries.len(), 3);
    assert_eq!(entries[0].stage, StageState::Staged);
    assert_eq!(entries[1].stage, StageState::Unstaged);
    assert_eq!(entries[2].stage, StageState::Partial);
    assert!(entries.iter().all(|e| e.kind == ChangeKind::Modified));
}

#[test]
fn porcelain_rename_carries_orig_path() {
    let raw = b"2 R. N... 100644 100644 100644 abc def R100 new name.rs\0old name.rs\0";
    let entries = parse_porcelain_v2(raw).unwrap();
    assert_eq!(entries.len(), 1);
    assert_eq!(entries[0].path, "new name.rs".to_string());
    assert_eq!(entries[0].orig_path, Some("old name.rs".to_string()));
    assert_eq!(entries[0].kind, ChangeKind::Renamed);
    assert_eq!(entries[0].stage, StageState::Staged);
}

#[test]
fn porcelain_untracked_conflicted_ignored() {
    let raw = b"? new file.txt\0\
                u UU N... 100644 100644 100644 100644 a b c conflict.rs\0\
                ! ignored.log\0";
    let entries = parse_porcelain_v2(raw).unwrap();
    assert_eq!(entries.len(), 2);
    assert_eq!(entries[0].kind, ChangeKind::Untracked);
    assert_eq!(entries[0].path, "new file.txt".to_string());
    assert_eq!(entries[1].kind, ChangeKind::Conflicted);
    assert_eq!(entries[1].stage, StageState::NA);
}

#[test]
fn numstat_parses_plain_binary_and_rename() {
    let raw = b"3\t1\tsrc/a.rs\0-\t-\timg.png\x000\t0\0old.rs\0new.rs\0";
    let stats = parse_numstat(raw);
    assert_eq!(stats.len(), 3);
    assert_eq!(stats[0], ("src/a.rs".to_string(), Some((3, 1))));
    assert_eq!(stats[1], ("img.png".to_string(), None));
    assert_eq!(stats[2], ("new.rs".to_string(), Some((0, 0))));
}

#[test]
fn name_status_kinds_and_rename() {
    let raw = b"M\0mod.rs\0A\0added.rs\0D\0gone.rs\0R087\0old.rs\0new.rs\0";
    let entries = parse_name_status(raw).unwrap();
    assert_eq!(entries.len(), 4);
    assert_eq!(entries[0].kind, ChangeKind::Modified);
    assert_eq!(entries[1].kind, ChangeKind::Added);
    assert_eq!(entries[2].kind, ChangeKind::Deleted);
    assert_eq!(entries[3].kind, ChangeKind::Renamed);
    assert_eq!(entries[3].path, "new.rs".to_string());
    assert_eq!(entries[3].orig_path, Some("old.rs".to_string()));
}

#[test]
fn merge_stat_sums_and_binary_is_contagious() {
    let mut stats = Stats::new();
    merge_stat(&mut stats, "a.rs".into(), Some((1, 2)));
    merge_stat(&mut stats, "a.rs".into(), Some((3, 4)));
    merge_stat(&mut stats, "b.png".into(), Some((5, 0)));
    merge_stat(&mut stats, "b.png".into(), None);
    assert_eq!(stats.get("a.rs"), Some(Some((4, 6))));
    assert_eq!(stats.get("b.png"), Some(None));
}

#[test]
fn sort_puts_conflicts_first_then_paths() {
    let entry = |path: &str, kind| FileEntry {
        path: path.into(),
        orig_path: None,
        kind,
        stage: StageState::NA,
        adds: None,
        dels: None,
    };
    let mut entries = vec![
        entry("z/deep.rs", ChangeKind::Modified),
        entry("a.rs", ChangeKind::Modified),
        entry("m/conflict.rs", ChangeKind::Conflicted),
    ];
    sort_entries(&mut entries);
    let paths: Vec<_> = entries
        .iter()
        .map(|e| e.path.to_string())
        .collect();
    assert_eq!(paths, vec!["m/conflict.rs", "a.rs", "z/deep.rs"]);
}

// ---- reading what git printed ----------------------------------------------

#[test]
fn a_record_that_breaks_off_is_refused_by_name() {
    assert_eq!(parse_porcelain_v2(b"1\0"), Err(ParseError::MissingXy));
    assert_eq!(
        parse_porcelain_v2(b"1 M. N... 100644\0"),
        Err(ParseError::TooShort)
    );
    assert_eq!(
        parse_porcelain_v2(b"2 R. N... 100644 100644 100644 abc def R100 new.rs"),
        Err(ParseError::MissingOrigField)
    );
    assert_eq!(parse_porcelain_v2(b"?\0"), Err(ParseError::BadUntracked));
    assert_eq!(parse_name_status(b"R100"), Err(ParseError::RenameMissingOrig));
    assert_eq!(
        parse_name_status(b"R100\0old.rs"),
        Err(ParseError::RenameMissingNew)
    );
    assert_eq!(parse_name_status(b"M"), Err(ParseError::MissingPath));
}

#[test]
fn bytes_that_are_no_text_are_replaced() {
    let raw = b"? caf\xff.txt\0";
    let entries = parse_porcelain_v2(raw).unwrap();
    assert_eq!(entries[0].path, "caf\u{FFFD}.txt");
}

#[test]
fn a_number_is_digits_that_fit() {
    assert_eq!(parse_number("12"), Some(12));
    assert_eq!(parse_number("4294967295"), Some(u32::MAX));
    assert_eq!(parse_number("4294967296"), None);
    assert_eq!(parse_number("+5"), Some(5));
    assert_eq!(parse_number("-"), None);
    assert_eq!(parse_number(""), None);
}

#[test]
fn only_the_first_line_of_a_complaint_is_kept() {
    assert_eq!(first_line("fatal: no\nhint: try"), "fatal: no");
    assert_eq!(first_line(""), "");
}

#[test]
fn counts_beyond_reach_are_reported() {
    let status = b"1 MM N... 100644 100644 100644 abc def a.rs\0";
    let counts = b"4294967295\t0\ta.rs\0";
    assert_eq!(
        Repo::worktree_status(status, counts, counts, &vec![]),
        Err(ParseError::TooManyLines)
    );
}

// ---- the worktree ------------------------------------------------------------

fn by_path<'a>(entries: &'a [FileEntry], p: &str) -> &'a FileEntry {
    entries
        .iter()
        .find(|e| e.path == p)
        .unwrap_or_else(|| panic!("no entry for {p}"))
}

#[test]
fn staged_unstaged_partial() {
    let status = b"1 .M N... 100644 100644 100644 abc abc base.txt\0\
                   1 AM N... 000000 100644 100644 000 abc partial.txt\0\
                   1 A. N... 000000 100644 100644 000 abc staged.txt\0";
    let unstaged = b"1\t0\tbase.txt\x001\t0\tpartial.txt\0";
    let staged = b"1\t0\tpartial.txt\x001\t0\tstaged.txt\0";
    let entries = Repo::worktree_status(status, unstaged, staged, &vec![]).unwrap();

    let staged = by_path(&entries, "staged.txt");
    assert_eq!(
        (staged.kind, staged.stage),
        (ChangeKind::Added, StageState::Staged)
    );
    assert_eq!((staged.adds, staged.dels), (Some(1), Some(0)));

    let unstaged = by_path(&entries, "base.txt");
    assert_eq!(
        (unstaged.kind, unstaged.stage),
        (ChangeKind::Modified, StageState::Unstaged)
    );
    assert_eq!((unstaged.adds, unstaged.dels), (Some(1), Some(0)));

    let partial = by_path(&entries, "partial.txt");
    assert_eq!(partial.stage, StageState::Partial);
    assert_eq!((partial.adds, partial.dels), (Some(2), Some(0))); // 1 staged + 1 unstaged
}

#[test]
fn rename_untracked_spaces_binary() {
    let status = b"1 A. N... 000000 100644 100644 000 abc blob.bin\0\
                   2 R. N... 100644 100644 100644 abc abc R100 renamed.txt\0base.txt\0\
                   ? new file.txt\0";
    let staged = b"-\t-\tblob.bin\x000\t0\0base.txt\0renamed.txt\0";
    let listed = parse_porcelain_v2(status).unwrap();
    assert_eq!(Repo::untracked_paths(&listed), vec!["new file.txt"]);
    let contents = vec![Some(b"a\nb\nc\n".to_vec())];
    let entries = Repo::worktree_status(status, b"", staged, &contents).unwrap();

    let renamed = by_path(&entries, "renamed.txt");
    assert_eq!(renamed.kind, ChangeKind::Renamed);
    assert_eq!(renamed.orig_path, Some("base.txt".to_string()));
    assert_eq!(renamed.stage, StageState::Staged);

    let untracked = by_path(&entries, "new file.txt");
    assert_eq!(
        (untracked.kind, untracked.stage),
        (ChangeKind::Untracked, StageState::Untracked)
    );
    assert_eq!((untracked.adds, untracked.dels), (Some(3), Some(0)));

    let binary = by_path(&entries, "blob.bin");
    assert_eq!(binary.kind, ChangeKind::Added);
    assert_eq!((binary.adds, binary.dels), (None, None));
}

#[test]
fn an_untracked_file_counts_its_lines_unless_it_is_binary() {
    assert_eq!(untracked_stats(Some(b"a\nb")), (Some(2), Some(0)));
    assert_eq!(untracked_stats(Some(b"")), (Some(0), Some(0)));
    assert_eq!(untracked_stats(Some(b"a\0b\n")), (None, None));
    assert_eq!(untracked_stats(None), (None, None));
}

#[test]
fn untracked_hidden_when_disabled() {
    assert_eq!(
        Repo::status_args(true),
        vec!["status", "--porcelain=v2", "-z", "--untracked-files=all"]
    );
    assert_eq!(
        Repo::status_args(false),
        vec!["status", "--porcelain=v2", "-z", "--untracked-files=no"]
    );
}

#[test]
fn conflicted_file_sorts_first() {
    let status = b"u UU N... 100644 100644 100644 100644 a b c base.txt\0? aaa.txt\0";
    let contents = vec![Some(b"x\n".to_vec())];
    let entries = Repo::worktree_status(status, b"", b"", &contents).unwrap();
    assert_eq!(entries[0].path, "base.txt");
    assert_eq!(entries[0].kind, ChangeKind::Conflicted);
    assert_eq!(entries[0].stage, StageState::NA);
    assert_eq!(entries[1].path, "aaa.txt");
}

fn said(ok: bool, stdout: &[u8], stderr: &[u8]) -> Result<GitOut, String> {
    Ok(GitOut {
        ok,
        stdout: stdout.to_vec(),
        stderr: stderr.to_vec(),
    })
}

#[test]
fn status_survives_a_submodule_path_that_is_a_symlink() {
    let refused = || {
        said(
            false,
            b"",
            b"fatal: expected submodule path '.source' not to be a symbolic link\n",
        )
    };
    match Repo::status_raw(true, refused(), None) {
        StatusStep::Retry(args) => assert_eq!(
            args,
            vec![
                "status",
                "--porcelain=v2",
                "-z",
                "--untracked-files=all",
                "--ignore-submodules=dirty"
            ]
        ),
        other => panic!("{other:?}"),
    }
    let again = said(
        true,
        b"1 A. S... 000000 160000 120000 000 abc .source\0\
          1 .M N... 100644 100644 100644 abc abc base.txt\0? fresh.txt\0",
        b"",
    );
    let raw = match Repo::status_raw(true, refused(), Some(again)) {
        StatusStep::Done(raw) => raw,
        other => panic!("{other:?}"),
    };
    let paths: Vec<String> = Repo::worktree_status(&raw, b"", b"", &vec![None])
        .unwrap()
        .iter()
        .map(|e| e.path.clone())
        .collect();
    assert!(paths.contains(&"base.txt".to_string()), "got {paths:?}");
    assert!(paths.contains(&"fresh.txt".to_string()), "got {paths:?}");
    assert!(paths.contains(&".source".to_string()), "got {paths:?}");
    match Repo::status_raw(true, refused(), Some(refused())) {
        StatusStep::Fail(GitError::Status(line)) => {
            assert_eq!(
                line,
                "fatal: expected submodule path '.source' not to be a symbolic link"
            )
        }
        other => panic!("{other:?}"),
    }
    assert!(matches!(
        Repo::status_raw(true, Err("gone".into()), None),
        StatusStep::Fail(GitError::Spawn(_))
    ));
}

#[test]
fn auto_refresh_still_sees_changes_when_status_needs_the_fallback() {
    let before = Repo::fingerprint(Some(b"1 A. S... 000000 160000 120000 000 abc .source\0"));
    let after = Repo::fingerprint(Some(
        b"1 A. S... 000000 160000 120000 000 abc .source\0\
          1 .M N... 100644 100644 100644 abc abc base.txt\0",
    ));
    assert_ne!(
        before, after,
        "fingerprint went blind, so polling would too"
    );
}

// ---- a branch and a commit -------------------------------------------------------

#[test]
fn branch_scope_changes_vs_main() {
    assert_eq!(
        Repo::head_branch(&said(true, b"feature\n", b"")).as_deref(),
        Some("feature")
    );
    assert_eq!(
        Repo::merge_base("main", said(true, b"abc123\n", b"")).unwrap(),
        "abc123"
    );
    let entries = Repo::branch_changes(
        b"M\0base.txt\0A\0feat.txt\0",
        b"1\t0\tbase.txt\x002\t0\tfeat.txt\0",
    )
    .unwrap();
    assert_eq!(entries.len(), 2);
    let feat = by_path(&entries, "feat.txt");
    assert_eq!((feat.kind, feat.stage), (ChangeKind::Added, StageState::NA));
    assert_eq!((feat.adds, feat.dels), (Some(2), Some(0)));
    let base = by_path(&entries, "base.txt");
    assert_eq!(base.kind, ChangeKind::Modified);
    assert_eq!((base.adds, base.dels), (Some(1), Some(0))); // appended one line
}

#[test]
fn file_at_reads_index_head_and_commits() {
    assert_eq!(
        Repo::file_at(said(true, b"one\ntwo\n", b"")).unwrap().as_deref(),
        Some("one\ntwo\n")
    );
    assert_eq!(
        Repo::file_in_worktree(Some(b"worktree version\n")).as_deref(),
        Some("worktree version\n")
    );
    assert_eq!(Repo::file_in_worktree(None), None);
    // missing path at a rev → None, not an error
    assert_eq!(
        Repo::file_at(said(
            false,
            b"",
            b"fatal: path 'nope.txt' does not exist in 'HEAD'\n"
        ))
        .unwrap(),
        None
    );
    assert_eq!(
        Repo::file_at_args(":0", "base.txt"),
        vec!["show", ":0:base.txt"]
    );
}

#[test]
fn file_at_commit_sha_and_parent() {
    assert_eq!(
        Repo::file_at_args("abc", "base.txt"),
        vec!["show", "abc:base.txt"]
    );
    assert_eq!(
        Repo::file_at_args("abc^", "base.txt"),
        vec!["show", "abc^:base.txt"]
    );
}

// ---- writing -----------------------------------------------------------------------

#[test]
fn stage_unstage_round_trip() {
    assert_eq!(Repo::stage("base.txt"), vec!["add", "--", "base.txt"]);
    assert_eq!(
        Repo::unstage("base.txt"),
        vec!["restore", "--staged", "--", "base.txt"]
    );
    assert_eq!(Repo::staged_count(b"base.txt\0"), 1);
    assert_eq!(Repo::staged_count(b""), 0);
}

#[test]
fn stage_and_unstage_many_move_a_whole_folder() {
    let paths: Vec<String> = vec!["src/a.rs".into(), "src/deep/b.rs".into()];
    assert_eq!(
        Repo::stage_many(&paths).unwrap(),
        vec!["add", "--", "src/a.rs", "src/deep/b.rs"]
    );
    assert_eq!(
        Repo::unstage_many(&paths).unwrap(),
        vec!["restore", "--staged", "--", "src/a.rs", "src/deep/b.rs"]
    );
}

#[test]
fn stage_many_with_no_paths_is_a_no_op() {
    assert_eq!(Repo::stage_many(&[]), None);
    assert_eq!(Repo::unstage_many(&[]), None);
}

fn entry(path: &str, orig: Option<&str>, kind: ChangeKind, stage: StageState) -> FileEntry {
    FileEntry {
        path: path.into(),
        orig_path: orig.map(|o| o.into()),
        kind,
        stage,
        adds: None,
        dels: None,
    }
}

#[test]
fn discard_untracked_deletes_file() {
    let e = entry(
        "loose.txt",
        None,
        ChangeKind::Untracked,
        StageState::Untracked,
    );
    assert_eq!(
        Repo::discard(&e).unwrap(),
        vec![vec!["clean", "-f", "--", "loose.txt"]]
    );
}

#[test]
fn discard_unstaged_restores_head() {
    let e = entry(
        "base.txt",
        None,
        ChangeKind::Modified,
        StageState::Unstaged,
    );
    assert_eq!(
        Repo::discard(&e).unwrap(),
        vec![vec!["restore", "--", "base.txt"]]
    );
}

#[test]
fn discard_staged_and_partial_full_revert() {
    for stage in [StageState::Staged, StageState::Partial] {
        let e = entry("base.txt", None, ChangeKind::Modified, stage);
        assert_eq!(
            Repo::discard(&e).unwrap(),
            vec![
                vec!["restore", "--staged", "--", "base.txt"],
                vec!["restore", "--", "base.txt"]
            ]
        );
    }
}

#[test]
fn discard_staged_new_file_removes_it() {
    let e = entry(
        "brand-new.txt",
        None,
        ChangeKind::Added,
        StageState::Staged,
    );
    assert_eq!(
        Repo::discard(&e).unwrap(),
        vec![
            vec!["restore", "--staged", "--", "brand-new.txt"],
            vec!["clean", "-f", "--", "brand-new.txt"]
        ]
    );
}

#[test]
fn discard_rename_restores_old_path() {
    let e = entry(
        "moved.txt",
        Some("base.txt"),
        ChangeKind::Renamed,
        StageState::Staged,
    );
    assert_eq!(
        Repo::discard(&e).unwrap(),
        vec![
            vec!["restore", "--staged", "--", "base.txt", "moved.txt"],
            vec!["restore", "--", "base.txt"],
            vec!["clean", "-f", "--", "moved.txt"]
        ]
    );
}

#[test]
fn discard_conflicted_is_refused() {
    let e = entry("base.txt", None, ChangeKind::Conflicted, StageState::NA);
    assert!(matches!(Repo::discard(&e), Err(GitError::Conflicted)));
}

// ---- the log -------------------------------------------------------------------------

#[test]
fn log_branch_commits_only_lists_this_branch() {
    let all = Repo::log_commits(50);
    assert_eq!(
        all,
        vec![
            "log",
            "--format=%H%x00%h%x00%an%x00%ad%x00%s%x00%b%x00%D%x00",
            "--date=short",
            "-n",
            "50"
        ]
    );
    let branch = Repo::log_branch_commits("abc", 50);
    assert_eq!(branch[..5], all[..]);
    assert_eq!(branch[5..], ["abc..HEAD".to_string()]);
}

#[test]
fn the_watched_refs_are_in_the_log_with_their_labels() {
    let live = vec!["origin/staging".to_string()];
    let args = Repo::log_with_refs(&live, Some("feat"), 50);
    assert_eq!(
        args[5..],
        [
            "--decorate=short",
            "--decorate-refs=HEAD",
            "--decorate-refs=refs/heads/feat",
            "--decorate-refs=refs/heads/origin/staging",
            "--decorate-refs=refs/remotes/origin/staging",
            "HEAD",
            "origin/staging"
        ]
        .map(|s| s.to_string())
    );
    assert_eq!(
        Repo::log_with_refs(&[], Some("feat"), 50),
        Repo::log_commits(50)
    );
    let refs = vec!["a".to_string(), "b".to_string()];
    assert_eq!(Repo::existing_refs(&refs, &[false, true]), vec!["b"]);
    assert_eq!(
        Repo::fetch_refs(&live).unwrap(),
        vec!["fetch", "--quiet", "origin", "staging"]
    );
    assert_eq!(Repo::fetch_refs(&refs), None);
}

#[test]
fn log_branch_commits_is_empty_on_the_base_branch() {
    let args = Repo::log_branch_commits("abc", 50);
    assert!(Repo::log_range(args, said(true, b"", b"")).unwrap().is_empty());
}

#[test]
fn log_reads_full_commit_messages_including_multiline_bodies() {
    let text = "c3\0c3\0t\x002024-01-03\0fix the thing\0First paragraph explaining why.\n\n\
                Second paragraph after a blank line.\n\0HEAD -> main\0\n\
                b2\0b2\0t\x002024-01-02\0subject only\0\0\0\n\
                a1\0a1\0t\x002024-01-01\0base\0\0tag: v1, origin/main\0\n";
    let commits = parse_log_text(text);
    assert_eq!(commits[0].subject, "fix the thing");
    assert!(commits[0].body.contains("First paragraph explaining why."));
    assert!(commits[0]
        .body
        .contains("Second paragraph after a blank line."));
    assert!(commits[0].body.contains("\n\n"));
    assert_eq!(commits[1].subject, "subject only");
    assert_eq!(commits[1].body, "");
    assert_eq!(commits[1].sha, "b2");
    assert_eq!(commits[2].subject, "base");
    assert_eq!(commits[2].body, "");
    assert_eq!(commits.len(), 3);
}

// ---- the base of a branch -----------------------------------------------------------------

fn ancestor(name: &str, distance: u32) -> Ancestor {
    Ancestor {
        name: name.into(),
        distance,
    }
}

fn trunk(name: &str, merge_base: &str, distance: u32) -> Trunk {
    Trunk {
        name: name.into(),
        merge_base: Some(merge_base.into()),
        distance,
    }
}

fn no_origin() -> Result<GitOut, String> {
    said(false, b"", b"fatal: ref refs/remotes/origin/HEAD is not a symbolic ref\n")
}

#[test]
fn base_is_the_branch_this_one_was_cut_from() {
    // main → develop → feature
    let refs = Repo::ancestor_refs("feature\ndevelop\nmain\n", Some("feature"), &[]);
    assert_eq!(refs, vec!["develop", "main"]);
    let fork = Repo::detect_fork_base(
        Some("f1"),
        Some("feature"),
        &vec![ancestor("develop", 1), ancestor("main", 2)],
        &vec![trunk("main", "m1", 2), trunk("develop", "d1", 1)],
    );
    assert_eq!(
        Repo::detect_base(fork, &no_origin(), &[false, false, true, false]),
        "develop"
    );
}

#[test]
fn base_survives_the_parent_advancing() {
    let fork = Repo::detect_fork_base(
        Some("f1"),
        Some("feature"),
        &vec![ancestor("main", 2)],
        &vec![trunk("main", "m1", 2), trunk("develop", "d1", 1)],
    );
    assert_eq!(fork.as_deref(), Some("develop"));
}

#[test]
fn base_of_a_branch_cut_from_main_is_main() {
    let fork = Repo::detect_fork_base(
        Some("f1"),
        Some("feature"),
        &vec![ancestor("main", 1)],
        &vec![trunk("main", "m1", 1)],
    );
    assert_eq!(fork.as_deref(), Some("main"));
}

#[test]
fn a_sibling_branch_does_not_beat_the_trunk_on_a_tie() {
    let fork = Repo::detect_fork_base(
        Some("f1"),
        Some("feature"),
        &vec![ancestor("aside", 1), ancestor("main", 1)],
        &vec![trunk("main", "m1", 1)],
    );
    assert_eq!(fork.as_deref(), Some("main"));
}

#[test]
fn a_branch_cut_from_this_one_is_not_its_base() {
    let fork = Repo::detect_fork_base(
        Some("f1"),
        Some("feature"),
        &vec![ancestor("child", 0), ancestor("main", 1)],
        &vec![trunk("main", "m1", 1)],
    );
    assert_eq!(fork.as_deref(), Some("main"));
}

#[test]
fn the_branchs_own_remote_ref_is_not_its_base() {
    let remotes = vec!["origin".to_string()];
    let refs = Repo::ancestor_refs(
        "feature\norigin/feature\norigin/HEAD\norigin/main\nmain\n",
        Some("feature"),
        &remotes,
    );
    assert_eq!(refs, vec!["origin/main", "main"]);
}

#[test]
fn a_configured_base_overrides_detection() {
    assert_eq!(Repo::base_to_use("main", "develop"), "main");
    assert_eq!(Repo::base_to_use("", "develop"), "develop");
    let (base, mb) = Repo::resolve_base("main", "develop", said(true, b"m1\n", b"")).unwrap();
    assert_eq!(base, "main");
    assert_eq!(mb, "m1");
    assert!(Repo::resolve_base("main", "develop", said(false, b"", b"fatal: no\n")).is_err());
}

#[test]
fn detection_falls_back_on_the_trunk_itself() {
    assert_eq!(
        Repo::detect_base(None, &no_origin(), &[false, false, true, false]),
        "main"
    );
}

#[test]
fn on_a_trunk_a_merged_branch_is_not_the_base() {
    let fork = Repo::detect_fork_base(
        Some("m2"),
        Some("main"),
        &vec![ancestor("shipped", 1)],
        &vec![],
    );
    assert_eq!(fork, None);
    assert_eq!(
        Repo::detect_base(fork, &no_origin(), &[false, false, true, false]),
        "main"
    );
}

#[test]
fn a_stacked_branch_diffs_against_the_branch_below_it() {
    let fork = Repo::detect_fork_base(
        Some("s2"),
        Some("nv-2-second-part"),
        &vec![ancestor("nv-1-first-part", 1), ancestor("main", 2)],
        &vec![trunk("main", "m1", 2)],
    );
    assert_eq!(fork.as_deref(), Some("nv-1-first-part"));
}

#[test]
fn detached_head_falls_back_without_panicking() {
    assert!(Repo::head_branch(&said(false, b"", b"fatal: ref HEAD is not a symbolic ref\n")).is_none());
    let fork = Repo::detect_fork_base(Some("s2"), None, &vec![], &vec![]);
    assert_eq!(fork, None);
    assert_eq!(
        Repo::detect_base(fork, &no_origin(), &[false, false, false, false]),
        "HEAD"
    );
    assert_eq!(
        Repo::detect_base(None, &said(true, b"refs/remotes/origin/trunk\n", b""), &[]),
        "origin/trunk"
    );
}

#[test]
fn a_directory_outside_git_is_no_repo() {
    assert!(matches!(
        Repo::discover("/tmp", said(false, b"", b"fatal: not a git repository\n")),
        Err(GitError::NotARepo(_))
    ));
    match Repo::git(vec!["remote".into()], said(false, b"", b"fatal: no\n")) {
        Err(GitError::Failed { args, stderr }) => {
            assert_eq!(args, vec!["remote"]);
            assert_eq!(stderr, "fatal: no");
        }
        other => panic!("{other:?}"),
    }
    assert!(matches!(
        Repo::fetch_outcome(said(false, b"", b"fatal: no network\n")),
        Err(GitError::Fetch(_))
    ));
}

#[test]
fn an_error_says_what_went_wrong() {
    let args = vec!["rev-parse".to_string(), "a \"b\"".to_string()];
    assert_eq!(
        spawn_words(&args),
        "spawning git [\"rev-parse\", \"a \\\"b\\\"\"]"
    );
    let said = |e: GitError| e.message();
    assert_eq!(said(GitError::Spawn("no git".into())), "no git");
    assert_eq!(
        said(GitError::Failed {
            args,
            stderr: "bad revision".into()
        }),
        "git [\"rev-parse\", \"a \\\"b\\\"\"] failed: bad revision"
    );
    assert_eq!(
        said(GitError::Status("fatal: x".into())),
        "git status failed: fatal: x"
    );
    assert_eq!(said(GitError::Fetch("denied".into())), "denied");
    assert_eq!(
        said(GitError::NotARepo("/tmp".into())),
        "/tmp is not inside a git repository"
    );
    assert_eq!(
        said(GitError::Parse(ParseError::TooShort)),
        "porcelain record too short"
    );
    assert!(said(GitError::Conflicted).contains("conflict"));
}

#[test]
fn all_commits_on_top_of_the_base_are_counted() {
    assert_eq!(
        Repo::commits_ahead_args("abc"),
        vec!["rev-list", "--count", "abc..HEAD"]
    );
}

#[test]
fn two_spellings_of_a_path_share_their_counts() {
    let mut stats = Stats::new();
    merge_stat(&mut stats, "a//b.rs".into(), Some((1, 2)));
    merge_stat(&mut stats, "a/b.rs".into(), Some((3, 4)));
    merge_stat(&mut stats, "a/c.rs".into(), Some((5, 6)));
    assert_eq!(stats.get("a/./b.rs"), Some(Some((4, 6))));
    assert_eq!(stats.get("a/c.rs"), Some(Some((5, 6))));
    assert_eq!(stats.get("b.rs"), None);
}

#[test]
fn a_base_is_found_on_a_detached_head_too() {
    let origin = Ok(GitOut {
        ok: true,
        stdout: b"refs/remotes/origin/trunk\n".to_vec(),
        stderr: vec![],
    });
    let none = Err("gone".to_string());
    let fork = Repo::detect_fork_base(Some("abc"), None, &vec![], &vec![]);
    assert_eq!(fork, None);
    assert_eq!(Repo::detect_base(None, &origin, &[]), "origin/trunk");
    assert_eq!(
        Repo::detect_base(None, &none, &[false, true, true, false]),
        "origin/master"
    );
    assert_eq!(Repo::detect_base(None, &none, &[false; 4]), "HEAD");
}

#[test]
fn a_discard_names_only_the_entry() {
    let entry = |kind: ChangeKind, stage: StageState, orig: Option<&str>| FileEntry {
        path: "new.rs".into(),
        orig_path: orig.map(|s| s.to_string()),
        kind,
        stage,
        adds: None,
        dels: None,
    };
    for e in [
        entry(ChangeKind::Untracked, StageState::Untracked, None),
        entry(ChangeKind::Renamed, StageState::Staged, Some("old.rs")),
        entry(ChangeKind::Modified, StageState::Unstaged, None),
        entry(ChangeKind::Added, StageState::Staged, None),
        entry(ChangeKind::Deleted, StageState::Partial, None),
    ] {
        for args in Repo::discard(&e).unwrap() {
            let mark = args.iter().position(|w| w == "--").unwrap();
            for path in &args[mark + 1..] {
                assert!(path == "new.rs" || (path == "old.rs" && e.orig_path.is_some()));
            }
        }
    }
}

#[test]
fn a_watched_log_is_of_head_and_of_every_live_ref() {
    let live = vec!["origin/staging".to_string(), "next".to_string()];
    let args = Repo::log_with_refs(&live, Some("me"), 9);
    assert_eq!(
        args[args.len() - 3..],
        ["HEAD".to_string(), "origin/staging".into(), "next".into()]
    );
}

#[test]
fn paths_are_found_again_among_the_entries() {
    let entry = |path: &str| FileEntry {
        path: path.into(),
        orig_path: None,
        kind: ChangeKind::Modified,
        stage: StageState::Unstaged,
        adds: None,
        dels: None,
    };
    let entries = vec![entry("a"), entry("b/c"), entry("d")];
    let paths = vec!["d".to_string(), "b//c".into(), "gone".into()];
    assert_eq!(Repo::entries_at(&entries, &paths), vec![1, 2]);
}
