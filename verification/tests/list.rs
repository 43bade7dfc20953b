use gitview::config::{Config, Theme};
use gitview::git::{ChangeKind, CommitInfo, FileEntry, Scope, StageState};
use gitview::git_repo::Repo;
use gitview::ipc::NoteMeta;
use gitview::keymap::{Key, KeyCode, KeyModifiers, Keymap};
use gitview::list::{App, GitAsk, Modal, Need};
use gitview::list_draw::{basename_text, commit_row, marker, stats};
use gitview::list_footer::{centered_rect, hint_line, sym, Hint, Rect};
use gitview::list_rows::{rows_of_files, ListRow, Mode, Section};
use gitview::list_ui::{bar_bg, highlight_bg, ref_label};
use gitview::list_views::{base_to_load, build_keymap};
use gitview::preview::Mouse;
use gitview::style::{accent, bad, Line, Style};
use gitview::thread::{Author, ThreadState};

const W: u16 = 40;

fn entry(path: &str, kind: ChangeKind, stage: StageState, adds: u32, dels: u32) -> FileEntry {
    FileEntry {
        path: path.into(),
        orig_path: None,
        kind,
        stage,
        adds: Some(adds),
        dels: Some(dels),
    }
}

fn app_with(entries: Vec<FileEntry>) -> App {
    let cfg = Config::default();
    let keys = Keymap::build(&vec![]).unwrap();
    let repo = Repo { root: ".".into() };
    App::from_entries(repo, cfg, keys, None, entries, 0)
}

fn flat(line: &Line) -> String {
    line.spans.iter().map(|s| s.content.as_str()).collect()
}

/// The text of the rows between the header and the footer.
fn body(app: &App, width: u16) -> Vec<String> {
    if app.rows.is_empty() {
        return app.empty_message().iter().map(flat).collect();
    }
    let mut out = Vec::new();
    for row in &app.rows {
        for line in app.draw_row(row, width) {
            out.push(flat(&line));
        }
    }
    out
}

fn header(app: &App, width: u16) -> String {
    flat(&app.render_header(width))
}

fn footer(app: &App, width: usize) -> String {
    flat(&app.footer_hints(width))
}

fn press(app: &mut App, c: char) {
    app.on_key(
        Key {
            code: KeyCode::Char(c),
            mods: KeyModifiers::none(),
        },
        false,
    );
}

#[test]
fn only_the_origin_prefix_is_stripped_from_a_label() {
    assert_eq!(ref_label(&["origin/staging".into()]), "[staging] ");
    assert_eq!(
        ref_label(&["HEAD -> feat/ers-pronunciation".into()]),
        "[feat/ers-pronunciation] "
    );
    // A remote that is not `origin` keeps its prefix rather than losing
    // the first half of the branch name.
    assert_eq!(ref_label(&["upstream/main".into()]), "[upstream/main] ");
    assert_eq!(ref_label(&[]), "");
}

/// A commit can be pointed at by both the local branch and its remote.
#[test]
fn a_label_does_not_repeat_the_same_branch_twice() {
    assert_eq!(
        ref_label(&["origin/staging".into(), "staging".into()]),
        "[staging] "
    );
}

#[test]
fn markers_and_stats_render() {
    let app = app_with(vec![
        entry(
            "src/main.rs",
            ChangeKind::Modified,
            StageState::Unstaged,
            3,
            1,
        ),
        entry("new.rs", ChangeKind::Added, StageState::Staged, 10, 0),
        entry(
            "notes.txt",
            ChangeKind::Untracked,
            StageState::Untracked,
            5,
            0,
        ),
    ]);
    let rows = body(&app, W);

    // The staged section first, then the changes.
    assert!(rows[0].contains("STAGED CHANGES"));
    let staged = &rows[1];
    assert!(rows[2].contains("CHANGES"));
    assert!(rows[3].contains("src/"), "dir row: {}", rows[3]);
    let modified = &rows[4];
    let untracked = &rows[5];

    // Markers sit after the two-column section indent, one tree depth deeper
    // under a directory.
    assert_eq!(staged.chars().nth(2), Some('A'));
    assert_eq!(modified.chars().nth(4), Some('M'));
    assert_eq!(untracked.chars().nth(2), Some('U'));

    // Stats right-aligned, zero sides dropped (− is unicode minus).
    assert!(modified.contains("+3 −1"), "modified: {modified:?}");
    assert!(staged.trim_end().ends_with("+10"), "staged: {staged:?}");
    assert!(
        untracked.trim_end().ends_with("+5"),
        "untracked: {untracked:?}"
    );

    assert!(modified.contains("main.rs"), "modified: {modified:?}");
}

#[test]
fn partial_file_appears_in_both_sections() {
    let app = app_with(vec![entry(
        "both.rs",
        ChangeKind::Modified,
        StageState::Partial,
        2,
        1,
    )]);
    let joined = body(&app, W).join("\n");
    let hits = joined.matches("both.rs").count();
    assert_eq!(
        hits, 2,
        "partial file should be in staged AND changes:\n{joined}"
    );
}

#[test]
fn the_selected_row_has_a_tint_of_its_own() {
    let mut app = app_with(vec![
        entry("a.rs", ChangeKind::Modified, StageState::Unstaged, 1, 0),
        entry("b.rs", ChangeKind::Modified, StageState::Unstaged, 1, 0),
    ]);
    // Rows: the heading, a.rs, b.rs.
    app.cursor = 2;
    let (selected, _) = app.selected_entry().unwrap();
    assert_eq!(selected.path, "b.rs");
    for theme in [Theme::Dark, Theme::Light] {
        let tint = Some(highlight_bg(theme));
        assert_ne!(
            app.draw_row(&app.rows[1], W)[0].style.bg,
            tint,
            "a row that is not selected has no tint of its own"
        );
        assert_ne!(tint, Some(bar_bg(theme)));
    }
    assert_ne!(highlight_bg(Theme::Dark), highlight_bg(Theme::Light));
}

#[test]
fn header_shows_file_count() {
    let app = app_with(vec![
        entry("a.rs", ChangeKind::Modified, StageState::Unstaged, 1, 0),
        entry("b.rs", ChangeKind::Added, StageState::Staged, 2, 0),
    ]);
    let header = header(&app, W);
    assert!(header.contains("2 files"), "header: {header:?}");
}

#[test]
fn empty_state_message() {
    let app = app_with(vec![]);
    let body = body(&app, W).join("");
    assert!(body.contains("working tree clean"), "body: {body:?}");
}

#[test]
fn narrow_footer_drops_tail_hints_but_keeps_help() {
    let app = app_with(vec![entry(
        "a.rs",
        ChangeKind::Modified,
        StageState::Unstaged,
        1,
        0,
    )]);
    // Far too narrow for all the hints of this mode.
    let footer = footer(&app, 30);
    assert!(footer.contains("help"), "help must survive: {footer:?}");
    assert!(!footer.contains("quit"), "tail hints dropped: {footer:?}");
    assert!(footer.chars().count() <= 30, "no wrapping: {footer:?}");
}

// ---- the notes panel -------------------------------------------------------

fn note(id: u64, file: &str, start: u32, end: u32, text: &str) -> NoteMeta {
    NoteMeta {
        id,
        file: file.into(),
        start,
        end,
        text: text.to_string(),
        cached: false,
        turns: 1,
        state: ThreadState::Draft,
        last_author: Author::Human,
    }
}

fn notes_app(notes: Vec<NoteMeta>) -> App {
    let mut app = app_with(vec![]);
    app.notes = notes;
    app.toggle_notes_view();
    app
}

#[test]
fn notes_are_grouped_under_a_heading_per_file() {
    let app = notes_app(vec![
        note(1, "src/a.rs", 12, 20, "first note"),
        note(2, "src/b.rs", 3, 3, "other file"),
        note(3, "src/a.rs", 44, 44, "second note on a"),
    ]);
    let body = body(&app, W);
    let joined = body.join("\n");

    // One heading per file, with its own count, notes gathered under it.
    assert!(joined.contains("SRC/A.RS"), "{joined}");
    assert!(joined.contains("SRC/B.RS"), "{joined}");
    let a_head = body.iter().position(|l| l.contains("SRC/A.RS")).unwrap();
    let b_head = body.iter().position(|l| l.contains("SRC/B.RS")).unwrap();
    assert!(body[a_head].contains('2'), "a.rs count: {:?}", body[a_head]);
    assert!(body[b_head].contains('1'), "b.rs count: {:?}", body[b_head]);
    // Both of a.rs's notes precede b.rs's heading.
    assert!(body[a_head..b_head]
        .iter()
        .any(|l| l.contains("first note")));
    assert!(body[a_head..b_head]
        .iter()
        .any(|l| l.contains("second note on a")));
}

#[test]
fn a_closed_conversation_is_not_listed() {
    let closed = |id: u64, file: &str| NoteMeta {
        state: ThreadState::Resolved,
        ..note(id, file, 1, 1, "settled")
    };
    let app = notes_app(vec![
        closed(1, "src/a.rs"),
        note(2, "src/a.rs", 3, 3, "still open"),
        closed(3, "src/b.rs"),
    ]);
    let joined = body(&app, W).join("\n");
    assert!(joined.contains("still open"), "{joined}");
    assert!(!joined.contains("settled"), "{joined}");
    assert!(!joined.contains("SRC/B.RS"), "{joined}");
    let all_closed = notes_app(vec![closed(1, "src/a.rs")]);
    assert_eq!(body(&all_closed, W), vec!["no notes"]);
}

#[test]
fn a_note_draws_its_anchor_and_text_on_separate_lines() {
    let app = notes_app(vec![note(1, "src/a.rs", 12, 20, "prefer a named constant")]);
    let body = body(&app, W);
    let anchor = body.iter().position(|l| l.contains("lines 12-20")).unwrap();
    assert!(
        body[anchor + 1].contains("prefer a named constant"),
        "text should be on its own line: {:?}",
        body[anchor + 1]
    );
}

#[test]
fn a_single_line_and_whole_file_note_read_naturally() {
    let app = notes_app(vec![
        note(1, "a.rs", 7, 7, "one line"),
        note(2, "b.rs", 0, 0, "the whole thing"),
    ]);
    let joined = body(&app, W).join("");
    assert!(joined.contains("line 7"), "{joined}");
    assert!(!joined.contains("lines 7-7"), "{joined}");
    assert!(joined.contains("whole file"), "{joined}");
}

#[test]
fn the_headings_are_skipped_when_moving_and_clicking() {
    let mut app = notes_app(vec![
        note(1, "src/a.rs", 1, 1, "one"),
        note(2, "src/b.rs", 2, 2, "two"),
    ]);

    // The cursor lands on the first *note*, not the heading above it.
    assert_eq!(app.selected_note().map(|n| n.id), Some(1));
    press(&mut app, 'j');
    assert_eq!(
        app.selected_note().map(|n| n.id),
        Some(2),
        "skips the heading"
    );

    // A click hit-tests through the two-line note rows: body line 0 is the
    // first heading, 1-2 the first note, 3 the second heading, 4-5 the second.
    assert_eq!(app.row_at(1), app.row_at(2), "both lines select one note");
    app.on_mouse(Mouse::Down, 3); // +1 for the header band
    assert_eq!(app.selected_note().map(|n| n.id), Some(1));
    app.on_mouse(Mouse::Down, 6);
    assert_eq!(app.selected_note().map(|n| n.id), Some(2));
}

#[test]
fn a_long_note_is_elided_rather_than_overflowing() {
    let app = notes_app(vec![note(1, "a.rs", 1, 1, &"very long note ".repeat(20))]);
    let body = body(&app, W);
    for line in &body {
        assert!(line.chars().count() as u16 <= W, "{line}");
    }
    assert!(body.join("").contains('…'), "expected an elision marker");
}

#[test]
fn a_multi_line_note_collapses_to_one_line_in_the_panel() {
    let app = notes_app(vec![note(1, "a.rs", 1, 1, "first\nsecond")]);
    let joined = body(&app, W).join("");
    assert!(joined.contains("first ⏎ second"), "{joined}");
}

#[test]
fn a_repo_git_cannot_report_on_says_so_instead_of_clean() {
    let mut app = app_with(vec![]);
    // Empty because git is clean.
    let text = body(&app, W).join("");
    assert!(text.contains("working tree clean"), "{text}");

    // Empty because git failed: that must not read as clean, and it must not
    // expire the way the footer message does.
    app.load_error = Some("git status failed: bad things".to_string());
    let text = body(&app, W).join("");
    assert!(text.contains("bad things"), "{text}");
    assert!(!text.contains("working tree clean"), "{text}");
    assert!(text.contains("retries"), "no way out offered: {text}");
}

#[test]
fn the_file_list_starts_even_when_git_status_cannot_run() {
    let app = App::new(
        Repo {
            root: "/tmp/nowhere".into(),
        },
        Config::default(),
        Keymap::build(&vec![]).unwrap(),
        None,
        Err("git status failed: fatal: not a git repository".into()),
        0,
    );
    assert!(app.entries.is_empty());
    assert!(
        app.active_status().unwrap_or_default().contains("status"),
        "no explanation shown: {:?}",
        app.active_status()
    );
}

// ---- "which diff am I looking at" ------------------------------------------

fn one_file() -> App {
    app_with(vec![entry(
        "src/main.rs",
        ChangeKind::Modified,
        StageState::Unstaged,
        3,
        1,
    )])
}

#[test]
fn the_header_names_the_comparison_not_just_the_branch() {
    let mut app = one_file();
    let text = header(&app, W);
    assert!(text.contains("uncommitted"), "{text}");

    app.scope = Scope::Branch;
    app.base = "origin/next".to_string();
    let text = header(&app, W);
    assert!(text.contains("vs origin/next"), "{text}");
}

#[test]
fn the_comparison_survives_a_narrow_pane_and_a_long_branch_name() {
    let mut app = one_file();
    app.scope = Scope::Branch;
    app.base = "origin/next".to_string();
    app.branch = Some("feature/a-very-long-branch-name-indeed".to_string());
    // The branch name is elided away; the comparison stays.
    let text: String = header(&app, 28).chars().take(28).collect();
    assert!(text.contains("vs origin/next"), "{text}");
}

#[test]
fn a_wide_pane_also_says_how_many_commits_the_branch_scope_covers() {
    let mut app = one_file();
    app.scope = Scope::Branch;
    app.base = "origin/next".to_string();
    app.branch = Some("feat/x".to_string());
    app.branch_commits = Some(3);
    let text = header(&app, 80);
    assert!(text.contains("3 commits"), "{text}");

    app.branch_commits = Some(1);
    let text = header(&app, 80);
    assert!(text.contains("1 commit "), "{text}");
}

#[test]
fn the_footer_says_which_comparison_w_switches_to() {
    let mut app = one_file();
    app.base = "origin/next".to_string();
    let text = footer(&app, 80);
    assert!(text.contains("vs origin/next"), "{text}");

    app.scope = Scope::Branch;
    let text = footer(&app, 80);
    assert!(text.contains("uncommitted"), "{text}");
}

// ---- rows ------------------------------------------------------------------------

#[test]
fn a_closed_directory_hides_what_is_under_it() {
    let mut app = app_with(vec![
        entry("src/a.rs", ChangeKind::Modified, StageState::Unstaged, 1, 0),
        entry("src/deep/b.rs", ChangeKind::Modified, StageState::Unstaged, 1, 0),
        entry("z.rs", ChangeKind::Modified, StageState::Unstaged, 1, 0),
    ]);
    let open = app.rows.len();
    app.cursor = 1;
    assert_eq!(app.selected_dir(), Some(("src/", Section::Changes)));
    assert!(app.toggle_selected_dir());
    assert!(app.rows.len() < open);
    assert!(!body(&app, W).join("\n").contains("a.rs"));
    assert!(app.toggle_selected_dir());
    assert_eq!(app.rows.len(), open);
}

#[test]
fn every_file_of_a_flat_list_has_a_row() {
    let entries = vec![
        entry("a/b/c.rs", ChangeKind::Modified, StageState::NA, 1, 0),
        entry("a/d.rs", ChangeKind::Added, StageState::NA, 1, 0),
        entry("e.rs", ChangeKind::Deleted, StageState::NA, 0, 1),
    ];
    let rows = rows_of_files(&entries, false, &vec![]);
    let mut seen: Vec<usize> = rows
        .iter()
        .filter_map(|r| match r {
            ListRow::Entry { idx, .. } => Some(*idx),
            _ => None,
        })
        .collect();
    seen.sort();
    assert_eq!(seen, vec![0, 1, 2]);
}

#[test]
fn a_refresh_keeps_the_cursor_on_its_file() {
    let mut app = app_with(vec![
        entry("b.rs", ChangeKind::Modified, StageState::Unstaged, 1, 0),
        entry("c.rs", ChangeKind::Modified, StageState::Unstaged, 1, 0),
    ]);
    press(&mut app, 'j');
    assert_eq!(app.selected_entry().unwrap().0.path, "c.rs");
    app.apply_refresh(vec![
        entry("a.rs", ChangeKind::Modified, StageState::Unstaged, 1, 0),
        entry("b.rs", ChangeKind::Modified, StageState::Unstaged, 1, 0),
        entry("c.rs", ChangeKind::Modified, StageState::Unstaged, 1, 0),
    ]);
    assert_eq!(app.selected_entry().unwrap().0.path, "c.rs");
}

#[test]
fn each_kind_has_its_letter() {
    assert_eq!(marker(ChangeKind::Modified).0, "M");
    assert_eq!(marker(ChangeKind::Added).0, "A");
    assert_eq!(marker(ChangeKind::Deleted).0, "D");
    assert_eq!(marker(ChangeKind::Renamed).0, "R");
    assert_eq!(marker(ChangeKind::Untracked).0, "U");
    let mut moved = entry("new/b.rs", ChangeKind::Renamed, StageState::Staged, 0, 0);
    moved.orig_path = Some("old/a.rs".into());
    assert!(basename_text(&moved).contains("b.rs"));
    let plain = entry("a.rs", ChangeKind::Modified, StageState::Unstaged, 12, 3);
    assert_eq!(stats(&plain).0, "+12 −3");
}

#[test]
fn a_commit_row_carries_its_labels() {
    let c = CommitInfo {
        sha: "abcdef0123".into(),
        short: "abcdef0".into(),
        author: "t".into(),
        date: "2024-01-01".into(),
        subject: "tighten the retry budget".into(),
        body: String::new(),
        refs: vec!["HEAD -> main".into()],
    };
    let text = flat(&commit_row(&c, 80));
    assert!(text.contains("abcdef0"), "{text}");
    assert!(text.contains("[main] "), "{text}");
    assert!(text.contains("tighten the retry budget"), "{text}");
}

// ---- keys --------------------------------------------------------------------------

#[test]
fn staging_asks_git_for_the_selected_file() {
    let mut app = app_with(vec![entry(
        "a.rs",
        ChangeKind::Modified,
        StageState::Unstaged,
        1,
        0,
    )]);
    press(&mut app, 's');
    match app.git_request.take() {
        Some(GitAsk::Stage(paths)) => assert_eq!(paths, vec!["a.rs"]),
        other => panic!("{other:?}"),
    }
    app.git_done(Ok(()));
    assert!(matches!(app.take_need(), Some(Need::Entries { .. })));
}

#[test]
fn discarding_asks_first() {
    let mut app = app_with(vec![entry(
        "loose.txt",
        ChangeKind::Untracked,
        StageState::Untracked,
        1,
        0,
    )]);
    press(&mut app, 'x');
    assert!(matches!(app.modal, Some(Modal::Confirm { .. })));
    assert!(app.git_request.is_none());
    press(&mut app, 'n');
    assert!(app.modal.is_none());
    assert!(app.git_request.is_none());
    press(&mut app, 'x');
    press(&mut app, 'y');
    assert!(matches!(app.git_request, Some(GitAsk::Discard(_))));
}

#[test]
fn a_conflict_has_a_section_of_its_own_and_is_left_alone() {
    let mut app = app_with(vec![
        entry("src/a.rs", ChangeKind::Conflicted, StageState::NA, 0, 0),
        entry("src/b.rs", ChangeKind::Modified, StageState::Unstaged, 1, 0),
        entry("src/c.rs", ChangeKind::Modified, StageState::Partial, 1, 0),
    ]);
    let rows = body(&app, W);
    assert!(rows[0].contains("MERGE CONFLICTS"), "{rows:?}");
    assert!(rows.iter().any(|r| r.contains("STAGED CHANGES")));
    // The folder of the conflicts.
    app.cursor = 1;
    assert_eq!(app.selected_dir(), Some(("src/", Section::Conflicts)));
    for key in ['s', 'u', 'x'] {
        press(&mut app, key);
        assert!(app.git_request.is_none() && app.modal.is_none());
        assert_eq!(
            app.active_status(),
            Some("resolve the conflict in the editor first")
        );
    }
    // The folder of the changes: the conflict is not among its files.
    app.cursor = app
        .rows
        .iter()
        .position(|r| {
            matches!(
                r,
                ListRow::Dir {
                    section: Section::Changes,
                    ..
                }
            )
        })
        .unwrap();
    assert_eq!(app.targets(false), vec!["src/b.rs", "src/c.rs"]);
    assert_eq!(app.targets(true), vec!["src/c.rs"]);
    let ops = app.selection_ops();
    assert!(ops.stage && ops.unstage && ops.discard && !ops.stage_unstages);
    press(&mut app, 'u');
    match app.git_request.take() {
        Some(GitAsk::Unstage(paths)) => assert_eq!(paths, vec!["src/c.rs"]),
        other => panic!("{other:?}"),
    }
}

#[test]
fn the_log_opens_and_closes() {
    let mut app = one_file();
    press(&mut app, 'l');
    assert!(matches!(app.take_need(), Some(Need::Log)));
    app.log_loaded(Ok(vec![CommitInfo {
        sha: "abcdef0123".into(),
        short: "abcdef0".into(),
        author: "t".into(),
        date: "2024-01-01".into(),
        subject: "base".into(),
        body: String::new(),
        refs: vec![],
    }]));
    assert_eq!(app.mode, Mode::Log);
    assert_eq!(app.selected_commit().unwrap().subject, "base");
    app.back_or_quit();
    assert_eq!(app.mode, Mode::Files);
    assert!(!app.should_quit);
    app.back_or_quit();
    assert!(app.should_quit);
}

#[test]
fn bad_overrides_fall_back_to_the_own_keys() {
    let (keys, note) = build_keymap(&vec![("stage".to_string(), "q".to_string())]);
    assert!(note.unwrap().starts_with("keybindings ignored: "));
    assert_eq!(keys.hint(gitview::keymap::Action::Stage), "s");
    let (keys, note) = build_keymap(&vec![("stage".to_string(), "o".to_string())]);
    assert_eq!(note, None);
    assert_eq!(keys.hint(gitview::keymap::Action::Stage), "o");
}

#[test]
fn hints_that_do_not_fit_are_left_out() {
    let hints: Vec<Hint> = (0..9)
        .map(|i| Hint {
            key: format!("{i}"),
            label: "label".into(),
        })
        .collect();
    let line = flat(&hint_line(&hints, 20));
    assert!(line.chars().count() <= 20, "{line}");
    assert!(line.contains('0'), "{line}");
    assert_eq!(sym("enter".into()), "↵");
    assert_eq!(sym("x".into()), "x");
}

#[test]
fn a_box_is_centered_inside_its_area() {
    let area = Rect {
        x: 2,
        y: 3,
        width: 40,
        height: 20,
    };
    let r = centered_rect(area, 10, 6);
    assert_eq!((r.x, r.y, r.width, r.height), (17, 10, 10, 6));
    let r = centered_rect(area, 100, 100);
    assert!(r.width <= area.width && r.height <= area.height);
}

#[test]
fn a_message_takes_the_place_of_the_keys_for_a_while() {
    let mut app = app_with(vec![]);
    app.set_status("staged a.rs");
    let line = app.render_footer(W);
    assert_eq!(flat(&line), " staged a.rs");
    assert_eq!(line.spans[0].style, Style::new().fg(accent()));
    app.now = 60_000;
    assert_eq!(app.active_status(), None);
    assert_eq!(flat(&app.render_footer(W)), footer(&app, W as usize));
}

#[test]
fn a_list_that_could_not_be_loaded_says_so_in_its_own_colour() {
    let mut app = app_with(vec![]);
    let clean = app.empty_message();
    assert_eq!(clean.len(), 1);
    assert!(clean[0].spans[0].style.dim);
    app.load_error = Some("git status failed: broken".into());
    let lines = app.empty_message();
    assert_eq!(flat(&lines[0]), "git status failed: broken");
    assert_eq!(lines[0].spans[0].style, Style::new().fg(bad()));
    assert_eq!(flat(&lines[1]), "r retries");
    assert!(lines[1].spans[0].style.dim);
}

#[test]
fn a_branch_without_a_known_base_is_compared_with_head() {
    assert_eq!(base_to_load(Scope::Worktree, &Some("abc".into())), None);
    assert_eq!(
        base_to_load(Scope::Branch, &Some("abc".into())).as_deref(),
        Some("abc")
    );
    assert_eq!(base_to_load(Scope::Branch, &None).as_deref(), Some("HEAD"));
}
