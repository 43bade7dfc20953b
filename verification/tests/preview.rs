use gitview::config::{Config, Theme};
use gitview::docview::DocView;
use gitview::git::{ChangeKind, GitOut, Scope};
use gitview::git_repo::Repo;
use gitview::ipc::{ToList, ToPreview};
use gitview::keymap::{Key, KeyCode, KeyModifiers, Keymap};
use gitview::layout::Target;
use gitview::preview::{PreviewApp, ShowReq, State};
use gitview::preview_session::{
    cached_base, core_editor_args, fetch_contents, first_read, has_core_editor, needs_merge_base,
    next_read, side_text, Fetch, Source,
};
use gitview::render::{build, repaint_emphasis};
use gitview::rows::{collapse_context, compute_emphasis, CodeLine, LineKind, Row, Run};
use gitview::style::{Color, Line, Span, Style};
use gitview::thread::{AgentRef, Anchor, Author, Thread, ThreadState, ThreadStore};

fn pane(store: ThreadStore) -> PreviewApp {
    let mut app = PreviewApp::new(
        Config::default(),
        Repo {
            root: "/repo".into(),
        },
        Keymap::build(&vec![]).unwrap(),
        "/state/threads/t.json".into(),
        store,
        None,
        0,
    );
    app.set_viewport(80, 24);
    app
}

fn req(file: &str) -> ShowReq {
    ShowReq {
        file: file.into(),
        orig_path: None,
        scope: Scope::Worktree,
        cached: false,
        kind: ChangeKind::Modified,
        commit: None,
    }
}

fn runs(text: &str) -> Vec<Vec<Run>> {
    text.lines()
        .map(|l| {
            vec![Run {
                text: l.to_string(),
                color: (1, 2, 3),
            }]
        })
        .collect()
}

fn showing(file: &str, old: &str, new: &str, store: ThreadStore) -> PreviewApp {
    let mut app = pane(store);
    app.begin_show(req(file), None);
    let doc = build(old, new, &runs(old), &runs(new), Theme::Dark, (1, 2, 3), 3, 4);
    app.apply_diff(&req(file), Ok(doc));
    app
}

fn store_with(texts: &[&str]) -> ThreadStore {
    let mut store = ThreadStore::empty("/repo");
    for text in texts {
        let id = store.alloc_id();
        store.threads.push(Thread::new(
            id,
            Anchor {
                file: "a.rs".into(),
                start: 2,
                end: 2,
                cached: false,
                snippet: "+two\n".into(),
                blob: None,
                head_sha: None,
            },
            text.to_string(),
        ));
    }
    store
}

fn flat(line: &Line) -> String {
    line.spans.iter().map(|s| s.content.as_str()).collect()
}

fn at(rev: &str, path: &str) -> Source {
    Source::At {
        rev: rev.into(),
        path: path.into(),
    }
}

fn disk(path: &str) -> Source {
    Source::Disk { path: path.into() }
}

#[test]
fn each_view_compares_its_own_two_sides() {
    let mut r = req("new.rs");
    r.orig_path = Some("old.rs".into());
    assert_eq!(
        fetch_contents(&r, "mb"),
        (at(":0", "new.rs"), disk("new.rs"))
    );
    r.kind = ChangeKind::Conflicted;
    assert_eq!(
        fetch_contents(&r, "mb"),
        (
            Source::Ours {
                path: "new.rs".into()
            },
            disk("new.rs")
        )
    );
    r.cached = true;
    assert_eq!(
        fetch_contents(&r, "mb"),
        (at("HEAD", "old.rs"), at(":0", "new.rs"))
    );
    assert!(!needs_merge_base(&r));
    r.scope = Scope::Branch;
    assert!(needs_merge_base(&r));
    assert_eq!(
        fetch_contents(&r, "mb"),
        (at("mb", "old.rs"), disk("new.rs"))
    );
    r.commit = Some("abc".into());
    assert!(!needs_merge_base(&r));
    assert_eq!(
        fetch_contents(&r, "mb"),
        (at("abc^", "old.rs"), at("abc", "new.rs"))
    );
    assert_eq!(side_text(Ok(None)), Ok(String::new()));
    assert_eq!(side_text(Ok(Some("x".into()))), Ok("x".to_string()));
    assert_eq!(
        side_text(Err("fatal: no\nhint".into())),
        Err("fatal: no".to_string())
    );
}

#[test]
fn the_base_is_kept_while_head_stays() {
    let cache = Some(("h1".to_string(), "mb".to_string()));
    assert_eq!(cached_base(&cache, "h1").as_deref(), Some("mb"));
    assert_eq!(cached_base(&cache, "h2"), None);
    assert_eq!(cached_base(&None, "h1"), None);
}

#[test]
fn the_header_names_the_file_and_the_comparison() {
    let mut app = showing("a.rs", "one\n", "one\ntwo\n", ThreadStore::empty("/repo"));
    assert_eq!(app.header_left(), " a.rs  [uncommitted]");
    assert_eq!(app.header_right(), "ln 1  1/2 ");
    let header = flat(&app.render_header(60));
    assert_eq!(header.chars().count(), 60);
    let mut r = req("a.rs");
    r.cached = true;
    r.kind = ChangeKind::Deleted;
    app.begin_show(r, None);
    assert_eq!(app.header_left(), " a.rs  [uncommitted] [staged] (deleted)");
    let mut r = req("a.rs");
    r.scope = Scope::Branch;
    assert!(app.needs_base(Scope::Branch));
    app.begin_show(r, Some("origin/next".into()));
    assert_eq!(app.header_left(), " a.rs  [vs origin/next]");
    let mut r = req("a.rs");
    r.commit = Some("0123456789abcdef".into());
    app.begin_show(r, None);
    assert_eq!(app.header_left(), " a.rs  [commit 0123456]");
    app.clear();
    assert_eq!(app.header_left(), " gitview: diff");
    assert_eq!(app.body_message().as_deref(), Some("no file selected"));
}

#[test]
fn a_file_without_changes_or_text_has_a_message_in_its_place() {
    let app = showing("a.rs", "same\n", "same\n", ThreadStore::empty("/repo"));
    assert!(matches!(app.state, State::Empty));
    assert_eq!(
        app.body_message().as_deref(),
        Some("(no changes in this view)")
    );
    let app = showing("a.rs", "one\n", "bin\0ary\n", ThreadStore::empty("/repo"));
    assert!(matches!(app.state, State::Binary));
    assert_eq!(app.body_message().as_deref(), Some("(binary file)"));
    assert!(!app.showing_diff());
}

#[test]
fn the_footer_makes_room_for_what_is_urgent() {
    let mut app = showing("a.rs", "one\n", "one\ntwo\n", ThreadStore::empty("/repo"));
    app.flash("saved");
    assert_eq!(flat(&app.render_footer(80)), " saved");
    app.now = 3000;
    assert_eq!(app.active_flash(), None);
    assert_ne!(flat(&app.render_footer(80)), " saved");
    app.begin_file_note();
    assert_eq!(
        flat(&app.render_footer(80)),
        " enter save · shift+enter / ctrl+j newline · esc cancel"
    );
}

fn type_in(app: &mut PreviewApp, text: &str) {
    for c in text.chars() {
        app.on_key(Key {
            code: KeyCode::Char(c),
            mods: KeyModifiers::none(),
        });
    }
}

#[test]
fn a_reply_is_added_to_the_conversation() {
    let mut app = showing("a.rs", "one\n", "one\ntwo\n", store_with(&["why?"]));
    assert!(!app.begin_reply(99), "there is no such conversation");
    assert!(app.composer.is_none());
    assert!(app.begin_reply(1));
    assert_eq!(app.pending.as_ref().unwrap().target, Target::Reply(1));
    type_in(&mut app, "and then?");
    app.commit_composer();
    let t = &app.threads()[0];
    assert_eq!(t.turns.len(), 2);
    assert_eq!(t.turns[1].text, "and then?");
    assert_eq!(t.turns[1].author, Author::Human);
    assert!(app.save_request);
    assert!(app.composer.is_none() && app.pending.is_none());
}

#[test]
fn an_edit_rewrites_the_turn_that_is_not_sent_yet() {
    let mut app = showing("a.rs", "one\n", "one\ntwo\n", store_with(&["why?"]));
    assert!(app.begin_edit_note(1));
    assert_eq!(app.composer.as_ref().unwrap().input.text(), "why?");
    app.on_key(Key {
        code: KeyCode::Backspace,
        mods: KeyModifiers::none(),
    });
    type_in(&mut app, " not?");
    app.commit_composer();
    assert_eq!(app.threads()[0].turns.len(), 1);
    assert_eq!(app.threads()[0].turns[0].text, "why not?");
    app.delete_note(1);
    assert!(app.threads().is_empty());
    assert!(!app.begin_edit_note(1));
}

#[test]
fn only_the_turns_that_were_asked_are_retired() {
    let mut app = showing("a.rs", "one\n", "one\ntwo\n", store_with(&["first"]));
    let asked = app.dispatch("w1:p1");
    assert_eq!(asked[0].turns, vec![0]);
    assert!(asked[0].prompt.contains("first"));
    app.append_human_turn(1, "meanwhile".into());
    app.mark_turns_sent(
        1,
        &asked[0].turns,
        AgentRef {
            pane: "w1:p1".into(),
            agent: "scribe".into(),
            session: None,
            session_kind: None,
        },
    );
    let t = &app.threads()[0];
    assert!(t.turns[0].sent);
    assert!(!t.turns[1].sent);
    assert_eq!(t.unsent_indices(), vec![1]);
    app.mark_thread_failed(1, &[0], "blocked", true);
    let t = &app.threads()[0];
    assert!(!t.turns[0].sent, "a refused turn is pending again");
    assert_eq!(t.turns.last().unwrap().author, Author::System);
    app.mark_thread_failed(1, &[0], "timed out", false);
    assert_eq!(app.threads()[0].state, ThreadState::Failed);
}

#[test]
fn a_note_of_another_file_brings_its_diff() {
    let mut app = showing("b.rs", "one\n", "one\ntwo\n", store_with(&["why?"]));
    match app.show_for_note(1) {
        Some(ToPreview::Show { file, cached, .. }) => {
            assert_eq!(file, "a.rs");
            assert!(!cached);
        }
        other => panic!("{other:?}"),
    }
    let asked = app.on_ipc(ToPreview::ComposeEditNote { id: 1 }, None);
    assert_eq!(asked.len(), 1);
    assert_eq!(asked[0].file, "a.rs");
    assert!(app.composer.is_some());
    assert!(app.show_for_note(1).is_none(), "its file is on screen now");
    assert!(app.show_for_note(7).is_none());
    let asked = app.on_ipc(ToPreview::ComposeEditNote { id: 7 }, None);
    assert!(asked.is_empty());
    assert_eq!(app.active_flash(), Some("that note is gone"));
}

#[test]
fn a_conversation_is_scrolled_to_when_its_diff_comes() {
    let new: String = (0..60).map(|i| format!("line {i}\n")).collect();
    let mut store = store_with(&["why?"]);
    store.threads[0].anchor.start = 50;
    store.threads[0].anchor.end = 50;
    let mut app = pane(store);
    app.focus_note(1);
    assert_eq!(app.pending_focus, Some(1));
    app.begin_show(req("a.rs"), None);
    let doc = build("", &new, &runs(""), &runs(&new), Theme::Dark, (1, 2, 3), 3, 4);
    app.apply_diff(&req("a.rs"), Ok(doc));
    assert_eq!(app.pending_focus, None);
    assert!(app.view.scroll > 20, "{}", app.view.scroll);
}

#[test]
fn the_list_is_told_of_the_notes_once_it_is_there() {
    let mut app = pane(store_with(&["why?"]));
    assert!(app.notes_to_tell(false, 0).is_none());
    match app.notes_to_tell(true, 0) {
        Some(ToList::Notes { notes }) => assert_eq!(notes[0].text, "why?"),
        other => panic!("{other:?}"),
    }
    assert!(app.notes_to_tell(true, app.notes_rev).is_none());
    app.notes_view_request = true;
    app.edit_request = true;
    let asked = app.take_requests();
    assert_eq!(asked.len(), 2);
    assert!(app.take_requests().is_empty());
}

#[test]
fn sending_opens_the_picker_only_where_there_is_something_to_send() {
    let mut app = pane(ThreadStore::empty("/repo"));
    app.on_ipc(ToPreview::SendNotes, None);
    assert_eq!(app.active_flash(), Some("no threads yet"));
    let mut app = pane(store_with(&["why?", "how?"]));
    app.on_ipc(ToPreview::SendNotes, None);
    assert!(!app.take_popup(true), "another popup is open");
    assert!(app.take_popup(false));
    assert!(!app.take_popup(false));
    assert!(app.agent_picker(0).is_none());
    assert_eq!(app.active_flash(), Some("no agent panes in this workspace"));
    let (title, width, height) = app.agent_picker(3).unwrap();
    assert_eq!(title, "send 2 unsent turn(s) to…");
    assert_eq!((width, height), (74, 9));
    assert_eq!(app.agent_picker(30).unwrap().2, 14);
}

#[test]
fn git_has_an_editor_of_its_own_or_gets_ours() {
    let app = pane(ThreadStore::empty("/repo"));
    assert_eq!(app.git_editor(false, false).as_deref(), Some("nvim"));
    assert_eq!(app.git_editor(true, false), None);
    assert_eq!(app.git_editor(false, true), None);
    let said = |ok: bool, text: &str| {
        Ok(GitOut {
            ok,
            stdout: text.as_bytes().to_vec(),
            stderr: vec![],
        })
    };
    assert!(has_core_editor(&said(true, "vim\n")));
    assert!(!has_core_editor(&said(true, "")));
    assert!(!has_core_editor(&said(false, "vim\n")));
    assert_eq!(core_editor_args(), vec!["config", "--get", "core.editor"]);
    assert_eq!(
        app.git_in_pane_argv(&vec!["commit".into(), "-e".into()]),
        vec!["git", "-C", "/repo", "commit", "-e"]
    );
    assert_eq!(
        app.editor_argv("b.rs", Some("/s.nvim")),
        vec!["nvim", "--listen", "/s.nvim", "/repo/b.rs"]
    );
}

// ---- the view -----------------------------------------------------------------------

#[test]
fn the_tint_goes_where_the_cursor_goes() {
    let mut view = DocView::new();
    view.doc = vec![
        Line::from_text("one".into()),
        Line::from_text("two".into()),
    ];
    let plain = view.doc.clone();
    view.viewport_w = 20;
    view.viewport_h = 5;
    view.sync_wrapped();
    view.restyle(true, Theme::Dark);
    assert_ne!(view.doc[0], plain[0]);
    assert_eq!(view.doc[1], plain[1]);
    view.move_cursor(1, true, Theme::Dark);
    assert_eq!(view.doc[0], plain[0]);
    assert_ne!(view.doc[1], plain[1]);
    view.restyle(false, Theme::Dark);
    assert_eq!(view.doc, plain);
}

#[test]
fn rows_and_lines_lead_to_each_other() {
    let mut view = DocView::new();
    view.doc = vec![
        Line::from_text("short".into()),
        Line::from_text("abcdefghijklmno".into()),
        Line::from_text("tail".into()),
    ];
    view.viewport_w = 10;
    view.viewport_h = 2;
    view.sync_wrapped();
    assert_eq!(view.content_lines(), 3);
    assert_eq!(view.visible_row_count(), 5);
    assert_eq!(view.row_span_of_line(1), (1, 3));
    assert_eq!(view.line_of_row(2), 1);
    assert_eq!(view.row_of_line(2), 4);
    assert_eq!(view.max_scroll(), 3);
    view.scroll = 9;
    view.clamp_scroll();
    assert_eq!(view.scroll, 3);
}

// ---- emphasis and folds ---------------------------------------------------------------

fn code(kind: LineKind, text: &str, no: u32) -> CodeLine {
    CodeLine {
        kind,
        old_no: (kind != LineKind::Insertion).then_some(no),
        new_no: (kind != LineKind::Deletion).then_some(no),
        runs: vec![Run {
            text: text.into(),
            color: (1, 2, 3),
        }],
        emphasis: vec![],
    }
}

#[test]
fn emphasis_is_on_the_words_that_changed_and_on_nothing_else() {
    let mut rows = vec![
        code(LineKind::Context, "fn main() {", 1),
        code(LineKind::Deletion, "let x = foo(a);", 2),
        code(LineKind::Insertion, "let x = bar(a);", 2),
    ];
    compute_emphasis(&mut rows);
    assert!(rows[0].emphasis.is_empty());
    assert_eq!(rows[1].emphasis, vec![(8, 15)]);
    assert_eq!(rows[2].emphasis, vec![(8, 15)]);
    assert_eq!(rows[1].text(), "let x = foo(a);");
}

#[test]
fn only_what_is_far_from_a_change_is_folded() {
    let mut rows: Vec<CodeLine> = (1..=20)
        .map(|n| code(LineKind::Context, &format!("line {n}"), n))
        .collect();
    rows[9] = code(LineKind::Insertion, "new", 10);
    let folded = collapse_context(&rows, 2);
    let shown: Vec<usize> = folded
        .iter()
        .map(|r| match r {
            Row::Code(_) => 1,
            Row::Fold(hidden) => {
                assert!(hidden.iter().all(|l| l.kind == LineKind::Context));
                hidden.len()
            }
        })
        .collect();
    assert_eq!(shown.iter().sum::<usize>(), 20);
    assert_eq!(shown, vec![7, 1, 1, 1, 1, 1, 8]);
}

#[test]
fn repainting_leaves_the_text_and_the_rest_of_the_line_alone() {
    let style = Style::new().fg(Color::Red);
    let line = Line::from_spans(
        vec![
            Span::raw("12 ".into()),
            Span::styled("hello world".into(), style),
        ],
        Style::new(),
    );
    let out = repaint_emphasis(&line, 3, &vec![(6, 11)], (9, 9, 9));
    assert_eq!(flat(&out), flat(&line));
    let painted: Vec<&str> = out
        .spans
        .iter()
        .filter(|s| s.style.bg == Some(Color::Rgb(9, 9, 9)))
        .map(|s| s.content.as_str())
        .collect();
    assert_eq!(painted, vec!["world"]);
    assert!(out
        .spans
        .iter()
        .filter(|s| s.content == "hello ")
        .all(|s| s.style == style));
}

#[test]
fn our_side_of_a_conflict_is_read_from_the_index_then_from_head() {
    let at = |rev: &str| Fetch::At {
        rev: rev.into(),
        path: "a.rs".into(),
    };
    let ours = Source::Ours {
        path: "a.rs".into(),
    };
    assert_eq!(first_read(&ours), at(":2"));
    assert_eq!(next_read(&ours, Ok(None)), at("HEAD"));
    assert_eq!(
        next_read(&ours, Ok(Some("x".into()))),
        Fetch::Done(Ok("x".into()))
    );
    let base = Source::At {
        rev: "abc".into(),
        path: "a.rs".into(),
    };
    assert_eq!(first_read(&base), at("abc"));
    assert_eq!(next_read(&base, Ok(None)), Fetch::Done(Ok(String::new())));
    assert_eq!(
        next_read(&base, Err("bad object\nhint".into())),
        Fetch::Done(Err("bad object".into()))
    );
    let disk = Source::Disk {
        path: "a.rs".into(),
    };
    assert_eq!(
        first_read(&disk),
        Fetch::Disk {
            path: "a.rs".into()
        }
    );
}

#[test]
fn a_new_pane_starts_blank() {
    let app = pane(ThreadStore::empty("/repo"));
    assert_eq!(app.view.scroll, 0);
    assert_eq!(app.view.cursor_line, 0);
    assert!(app.view.doc.is_empty());
    assert_eq!(app.view.select_anchor, None);
}

#[test]
fn a_note_is_edited_in_its_own_file_only() {
    let mut app = showing("b.rs", "one\n", "one\ntwo\n", store_with(&["why?"]));
    assert!(!app.begin_edit_note(1), "its file is not shown");
    assert!(app.composer.is_none() && app.pending.is_none());
    assert!(app.show_for_note(1).is_some());
    let mut app = showing("a.rs", "one\n", "one\ntwo\n", store_with(&["why?"]));
    assert!(app.show_for_note(1).is_none());
    assert!(app.begin_edit_note(1));
}

#[test]
fn a_diff_of_the_same_file_is_taken_whatever_its_spelling() {
    let mut app = showing("a/b.rs", "one\n", "one\ntwo\n", ThreadStore::empty("/repo"));
    let other = ShowReq {
        file: "a//b.rs".into(),
        ..app.current.clone().unwrap()
    };
    app.apply_diff(&other, Err("broken".into()));
    assert!(matches!(app.state, State::Error(_)));
    let unlike = ShowReq {
        file: "b.rs".into(),
        ..other
    };
    app.apply_diff(&unlike, Err("other".into()));
    assert!(matches!(&app.state, State::Error(e) if e == "broken"));
}

#[test]
fn a_commit_is_named_by_its_first_seven_bytes() {
    let mut app = showing("a.rs", "one\n", "one\ntwo\n", ThreadStore::empty("/repo"));
    for (sha, short) in [
        ("0123456789", "0123456"),
        ("abc", "abc"),
        ("ééé1234", "ééé1"),
    ] {
        let req = ShowReq {
            commit: Some(sha.into()),
            ..app.current.clone().unwrap()
        };
        app.current = Some(req);
        assert_eq!(app.header_left(), format!(" a.rs  [commit {short}]"));
    }
}
