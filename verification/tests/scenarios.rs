//! Both panes, wired to each other and to a repository held in memory.

use gitview::config::{Config, Theme};
use gitview::git::{ChangeKind, CommitInfo, FileEntry, StageState};
use gitview::git_order::sort_entries;
use gitview::git_repo::Repo;
use gitview::ipc::{ToList, ToPreview, PROTO};
use gitview::keymap::{parse_key, Key, KeyCode, KeyModifiers, Keymap};
use gitview::list::{App, EditorThen, GitAsk, Need};
use gitview::list_rows::{ListRow, Mode, Section};
use gitview::list_edit::Step;
use gitview::list_session::{Deed, Link, Session};
use gitview::list_tick::Event;
use gitview::preview::{Mouse, PreviewApp, ShowReq, State};
use gitview::preview_session::{fetch_contents, EditorHost, Source};
use gitview::preview_tick;
use gitview::render::build;
use gitview::reply::{ReplyMsg, Retry};
use gitview::rows::Run;
use gitview::thread::{AgentRef, Anchor, Author, Thread, ThreadState, ThreadStore};

/// Records editor invocations instead of running them.
struct RecordingEditor {
    runs: Vec<Vec<String>>,
}

impl EditorHost for RecordingEditor {
    fn run(
        &mut self,
        _cwd: &str,
        argv: &[String],
        _envs: &[(String, String)],
    ) -> Result<bool, String> {
        self.runs.push(argv.to_vec());
        Ok(true)
    }
}

struct Versions {
    path: String,
    head: Option<String>,
    index: Option<String>,
    disk: Option<String>,
}

/// A repository: each file as it is committed, staged and on disk.
struct Files {
    all: Vec<Versions>,
}

fn lines_in(t: &Option<String>) -> u32 {
    t.as_deref().unwrap_or("").lines().count() as u32
}

impl Files {
    fn with(changes: &[(&str, Option<&str>, &str)]) -> Files {
        Files {
            all: changes
                .iter()
                .map(|(path, head, disk)| Versions {
                    path: path.to_string(),
                    head: head.map(|h| h.to_string()),
                    index: head.map(|h| h.to_string()),
                    disk: Some(disk.to_string()),
                })
                .collect(),
        }
    }

    fn entries(&self) -> Vec<FileEntry> {
        let mut out = Vec::new();
        for f in &self.all {
            let staged = f.index != f.head;
            let loose = f.disk != f.index;
            if !staged && !loose {
                continue;
            }
            let untracked = f.head.is_none() && f.index.is_none();
            out.push(FileEntry {
                path: f.path.clone(),
                orig_path: None,
                kind: if untracked {
                    ChangeKind::Untracked
                } else if f.head.is_none() {
                    ChangeKind::Added
                } else {
                    ChangeKind::Modified
                },
                stage: if untracked {
                    StageState::Untracked
                } else if staged && loose {
                    StageState::Partial
                } else if staged {
                    StageState::Staged
                } else {
                    StageState::Unstaged
                },
                adds: Some(lines_in(&f.disk)),
                dels: Some(0),
            });
        }
        sort_entries(&mut out);
        out
    }

    fn apply(&mut self, ask: GitAsk) {
        match ask {
            GitAsk::Stage(paths) => {
                for f in self.all.iter_mut().filter(|f| paths.contains(&f.path)) {
                    f.index = f.disk.clone();
                }
            }
            GitAsk::Unstage(paths) => {
                for f in self.all.iter_mut().filter(|f| paths.contains(&f.path)) {
                    f.index = f.head.clone();
                }
            }
            GitAsk::Discard(paths) => {
                for f in self.all.iter_mut().filter(|f| paths.contains(&f.path)) {
                    f.index = f.head.clone();
                    f.disk = f.head.clone();
                }
            }
        }
    }

    fn text(&self, source: &Source) -> String {
        let find = |path: &str| self.all.iter().find(|f| f.path == path);
        let text = match source {
            Source::At { rev, path } => find(path).and_then(|f| {
                if rev == "HEAD" {
                    f.head.clone()
                } else {
                    f.index.clone()
                }
            }),
            Source::Ours { path } => find(path).and_then(|f| f.head.clone()),
            Source::Disk { path } => find(path).and_then(|f| f.disk.clone()),
        };
        text.unwrap_or_default()
    }

    fn on_disk(&self, path: &str) -> bool {
        self.all.iter().any(|f| f.path == path && f.disk.is_some())
    }
}

fn runs_of(text: &str) -> Vec<Vec<Run>> {
    text.lines()
        .map(|l| {
            vec![Run {
                text: l.to_string(),
                color: (200, 200, 200),
            }]
        })
        .collect()
}

/// Both panes, wired and pumpable.
struct World {
    files: Files,
    commits: Vec<CommitInfo>,
    list: Session,
    preview: PreviewApp,
    told: u64,
    popup_open: bool,
    editor: RecordingEditor,
    focus: Vec<&'static str>,
}

impl World {
    fn new(files: Files) -> World {
        World::build(files, ThreadStore::empty("/repo"))
    }

    /// A world whose store already holds a conversation. The preview runs
    /// before the list connects.
    fn restored(files: Files, file: &str, text: &str) -> World {
        let mut store = ThreadStore::empty("/repo");
        let id = store.alloc_id();
        store.threads.push(Thread::new(
            id,
            Anchor {
                file: file.to_string(),
                start: 0,
                end: 0,
                cached: false,
                snippet: String::new(),
                blob: None,
                head_sha: None,
            },
            text.to_string(),
        ));
        World::build(files, store)
    }

    fn build(files: Files, store: ThreadStore) -> World {
        let repo = || Repo {
            root: "/repo".into(),
        };
        let keys = || Keymap::build(&vec![]).unwrap();
        let app = App::new(
            repo(),
            Config::default(),
            keys(),
            Some("main".into()),
            Ok(files.entries()),
            0,
        );
        let mut list = Session::new(app, true, true, true);
        list.show_debounce = 0;
        let mut preview = PreviewApp::new(
            Config::default(),
            repo(),
            keys(),
            "/state/threads/t.json".into(),
            store,
            None,
            0,
        );
        preview.set_viewport(80, 24);
        // Nothing is told before the list is there.
        assert!(preview.tick(false, 0, false).say.is_empty());
        let mut world = World {
            files,
            commits: vec![],
            list,
            preview,
            told: 0,
            popup_open: false,
            editor: RecordingEditor { runs: vec![] },
            focus: vec![],
        };
        world.list.on_event(Event::Connected);
        for deed in world.preview.on_event(preview_tick::Event::Connected) {
            match deed {
                preview_tick::Deed::Say(msg) => world.to_list(msg),
                _ => panic!("only a greeting"),
            }
        }
        world.pump();
        world
    }

    fn make(&mut self, asked: Vec<ShowReq>) {
        for req in asked {
            let (old, new) = fetch_contents(&req, "");
            let (old, new) = (self.files.text(&old), self.files.text(&new));
            let doc = build(
                &old,
                &new,
                &runs_of(&old),
                &runs_of(&new),
                Theme::Dark,
                (200, 200, 200),
                3,
                4,
            );
            self.preview.on_event(preview_tick::Event::Diff {
                req,
                result: Ok(doc),
            });
        }
    }

    fn to_preview(&mut self, msg: ToPreview) {
        let deeds = self
            .preview
            .on_event(preview_tick::Event::Ipc { msg, base: None });
        self.preview_does(deeds);
    }

    fn preview_does(&mut self, deeds: Vec<preview_tick::Deed>) {
        for deed in deeds {
            match deed {
                preview_tick::Deed::Say(msg) => self.to_list(msg),
                preview_tick::Deed::Diff(req) => self.make(vec![req]),
                preview_tick::Deed::Edit { file } => {
                    let argv = self.preview.editor_argv(&file, None);
                    self.preview.run_suspended(&argv, &[], &mut self.editor);
                    let deeds = self.preview.back(ToList::EditDone { file });
                    self.preview_does(deeds);
                }
                preview_tick::Deed::Git { argv } => {
                    let argv = self.preview.git_in_pane_argv(&argv);
                    let ok = self.preview.run_suspended(&argv, &[], &mut self.editor);
                    let deeds = self.preview.back(ToList::GitDone { ok });
                    self.preview_does(deeds);
                }
            }
        }
    }

    fn to_list(&mut self, msg: ToList) {
        let deeds = self.list.on_event(Event::Ipc(msg));
        self.perform(deeds);
    }

    fn perform(&mut self, deeds: Vec<Deed>) {
        for deed in deeds {
            match deed {
                Deed::Send(msg) => self.to_preview(msg),
                Deed::HandOff(msg) => {
                    self.focus.push("preview");
                    self.to_preview(msg);
                }
                Deed::Ask(_) => {
                    self.list.app.modal_external = true;
                    self.popup_open = true;
                }
                Deed::Open { file } => {
                    let there = self.files.on_disk(&file);
                    let step = match self.list.start_edit(&file, there, true) {
                        Step::TryTab => self.list.open_in_tab_nvim(&file, false),
                        step => step,
                    };
                    if let Step::Tell(msg) = step {
                        // The message is on its way while the list goes on.
                        if let Step::Focus = self.list.edit_told(&file) {
                            self.focus.push("preview");
                        }
                        self.to_preview(msg);
                    }
                }
                Deed::Commit => {
                    let staged = self.files.all.iter().filter(|f| f.index != f.head).count();
                    if let Step::Tell(msg) = self.list.start_commit(Ok(staged)) {
                        self.list.commit_told();
                        self.to_preview(msg);
                    }
                }
                Deed::FocusSelf => self.focus.push("list"),
                Deed::LastCommit => self.list.committed(Some("abc fix".into())),
                Deed::Connect | Deed::Switch { .. } | Deed::Probe(_) => {}
            }
        }
    }

    /// Run both panes until nothing moves.
    fn pump(&mut self) {
        for _ in 0..8 {
            let before = self.list.app.show_key();
            if let Some(ask) = self.list.app.git_request.take() {
                self.files.apply(ask);
                self.list.app.git_done(Ok(()));
            }
            if let Some(need) = self.list.app.take_need() {
                match need {
                    Need::Entries { rebuild } => {
                        let entries = self.files.entries();
                        self.list.app.entries_loaded(Ok(entries), rebuild);
                    }
                    Need::Log | Need::Filtered => {
                        let commits = self.commits.clone();
                        self.list.app.log_loaded(Ok(commits));
                    }
                    Need::ScopeBase | Need::LogBase => {
                        self.list
                            .app
                            .base_found(Err("no base".into()), false);
                    }
                    Need::CommitFiles => self.list.app.commit_loaded(Ok(vec![])),
                }
            }
            self.list.settle(&before);

            let deeds = self.list.tick(self.popup_open);
            self.perform(deeds);

            if self.preview.stamp_request {
                self.preview
                    .stamp_pending(Some("blob".into()), Some("head".into()));
            }
            let round = self.preview.tick(true, self.told, false);
            self.told = round.told;
            for msg in round.say {
                self.to_list(msg);
            }
        }
    }

    fn press(&mut self, key: &str) {
        let key = parse_key(key).unwrap();
        let deeds = self.list.on_event(Event::Key(key));
        self.perform(deeds);
        self.pump();
    }

    fn shown_file(&self) -> Option<String> {
        self.preview.current.as_ref().map(|req| req.file.clone())
    }

    /// Plain text of the document in the diff pane.
    fn diff_text(&self) -> String {
        self.preview
            .view
            .doc
            .iter()
            .flat_map(|l| l.spans.iter().map(|s| s.content.as_str()))
            .collect()
    }

    /// Type into the box for notes, and save.
    fn compose(&mut self, text: &str) {
        assert!(
            self.preview.composer.is_some(),
            "no composer opened in the diff pane (flash: {:?})",
            self.preview.active_flash(),
        );
        for ch in text.chars() {
            self.diff_key(KeyCode::Char(ch), KeyModifiers::none());
        }
        self.diff_key(KeyCode::Enter, KeyModifiers::none());
        self.pump();
    }

    /// A key press in the diff pane.
    fn diff_key(&mut self, code: KeyCode, mods: KeyModifiers) {
        let key = Key { code, mods };
        let deeds = self.preview.on_event(preview_tick::Event::Key(key));
        self.preview_does(deeds);
    }

    fn answer_popup(&mut self, answer: Option<&str>) {
        assert!(self.popup_open);
        self.popup_open = false;
        self.list.poll_popups(answer);
        self.pump();
    }

    fn staged_rows(&self) -> usize {
        self.list
            .app
            .rows
            .iter()
            .filter(|r| {
                matches!(
                    r,
                    ListRow::Entry {
                        section: Section::Staged,
                        ..
                    }
                )
            })
            .count()
    }
}

fn base_changed() -> Files {
    Files::with(&[("base.txt", Some("one\ntwo\n"), "one\ntwo\nchanged\n")])
}

fn agent() -> AgentRef {
    AgentRef {
        pane: "w1:p9".into(),
        agent: "scribe".into(),
        session: Some("sess-1".into()),
        session_kind: Some("id".into()),
    }
}

// ---------------------------------------------------------------------------

#[test]
fn browsing_shows_each_files_diff() {
    let mut w = World::new(Files::with(&[
        ("alpha.txt", None, "added alpha\n"),
        ("base.txt", Some("one\ntwo\n"), "one\ntwo\nthree added\n"),
    ]));

    // Two entries; the first selection previews by itself.
    assert_eq!(w.shown_file().as_deref(), Some("alpha.txt"));
    assert!(matches!(w.preview.state, State::Diff));
    assert!(w.diff_text().contains("added alpha"), "{}", w.diff_text());

    w.press("j");
    assert_eq!(w.shown_file().as_deref(), Some("base.txt"));
    assert!(w.diff_text().contains("three added"));
}

#[test]
fn staging_moves_the_file_and_previews_the_staged_diff() {
    let mut w = World::new(base_changed());

    assert_eq!(w.shown_file().as_deref(), Some("base.txt"));
    assert_eq!(w.staged_rows(), 0);

    w.press("s");
    // The file moved to the staged section, and is shown from there.
    assert_eq!(w.staged_rows(), 1);
    let req = w.preview.current.as_ref().unwrap();
    assert!(req.cached, "staged section selection previews --cached");

    w.press("u"); // explicit unstage moves it back
    assert_eq!(w.staged_rows(), 0);
}

#[test]
fn discarding_the_last_change_clears_the_preview() {
    let mut w = World::new(Files::with(&[("loose.txt", None, "scratch\n")]));
    w.press("x");
    w.answer_popup(Some("y"));

    assert!(w.list.app.entries.is_empty(), "entry discarded");
    assert!(
        matches!(w.preview.state, State::Splash(_)),
        "preview cleared instead of showing a stale diff"
    );
    assert!(!w.files.on_disk("loose.txt"));
}

#[test]
fn threads_restored_from_disk_reach_the_list_after_connecting() {
    let mut w = World::restored(base_changed(), "base.txt", "from a previous session");

    assert_eq!(
        w.preview.threads().len(),
        1,
        "the preview reloaded the store"
    );
    assert_eq!(
        w.list.app.notes.len(),
        1,
        "the restored thread reached the list without any user mutation"
    );
    assert_eq!(w.list.app.notes[0].text, "from a previous session");

    // And the notes view actually opens, rather than saying "no notes yet".
    w.press("n");
    assert_eq!(w.list.app.mode, Mode::Notes);
}

/// The card goes on showing what was asked: the answer is read in the agent's
/// own pane.
#[test]
fn an_agents_reply_lands_in_the_thread_that_asked_and_reaches_both_panes() {
    let mut w = World::new(base_changed());

    w.press("a");
    w.compose("why is this safe?");
    let id = w.preview.threads()[0].id;

    // The worker reports delivery, then the captured reply.
    let deeds = w
        .preview
        .on_event(preview_tick::Event::Reply(ReplyMsg::Delivered {
            id,
            turns: vec![0],
            agent: Box::new(agent()),
        }));
    w.preview_does(deeds);
    w.pump();
    assert_eq!(w.preview.threads()[0].state, ThreadState::Sent);
    assert!(!w.diff_text().contains("replied"));

    let deeds = w
        .preview
        .on_event(preview_tick::Event::Reply(ReplyMsg::Replied {
            id,
            text: "checked.".into(),
        }));
    w.preview_does(deeds);
    w.pump();

    let t = &w.preview.threads()[0];
    assert_eq!(t.state, ThreadState::Answered);
    assert_eq!(t.turns.len(), 2);
    assert_eq!(t.turns[1].author, Author::Agent);
    assert_eq!(t.turns[1].text, "checked.");
    assert!(
        w.diff_text().contains("· 2 turns · replied "),
        "the card's title says that the reply is there:\n{}",
        w.diff_text()
    );
    let note = &w.list.app.notes[0];
    assert_eq!(note.text, "checked.", "and the list's projection followed");
    assert_eq!(note.state, ThreadState::Answered);
    assert_eq!(note.turns, 2);
    assert_eq!(note.last_author, Author::Agent);
}

/// The text that the box shows is the text of the note that is saved.
#[test]
fn the_box_saves_what_it_shows() {
    let mut w = World::new(base_changed());
    w.press("a");
    for ch in "why nt?".chars() {
        w.diff_key(KeyCode::Char(ch), KeyModifiers::none());
    }
    w.diff_key(KeyCode::Left, KeyModifiers::none());
    w.diff_key(KeyCode::Left, KeyModifiers::none());
    w.diff_key(KeyCode::Char('o'), KeyModifiers::none());
    // A key of the pane is a letter of the note while the box is open.
    w.diff_key(KeyCode::End, KeyModifiers::none());
    w.diff_key(
        KeyCode::Enter,
        KeyModifiers {
            shift: true,
            ..KeyModifiers::none()
        },
    );
    w.diff_key(KeyCode::Char('q'), KeyModifiers::none());
    let shown = w.preview.composer.as_ref().unwrap().input.text();
    assert_eq!(shown, "why not?\nq");
    assert!(w.preview.threads().is_empty(), "nothing is saved before enter");
    w.diff_key(KeyCode::Enter, KeyModifiers::none());
    assert!(w.preview.composer.is_none());
    assert_eq!(w.preview.threads()[0].turns[0].text, "why not?\nq");
}

#[test]
fn a_closed_conversation_stays_closed_whatever_comes_back() {
    let mut w = World::new(base_changed());
    w.press("a");
    w.compose("done?");
    let id = w.preview.threads()[0].id;
    w.preview.store.get_mut(id).unwrap().state = ThreadState::Resolved;
    w.preview.on_reply(ReplyMsg::Delivered {
        id,
        turns: vec![0],
        agent: Box::new(agent()),
    });
    assert_eq!(w.preview.threads()[0].state, ThreadState::Resolved);
    assert!(w.preview.threads()[0].turns[0].sent);
    w.preview.on_reply(ReplyMsg::Replied {
        id,
        text: "yes".into(),
    });
    assert_eq!(w.preview.threads()[0].state, ThreadState::Resolved);
    assert_eq!(w.preview.threads()[0].turns.len(), 2);
    w.preview.on_reply(ReplyMsg::Failed {
        id,
        turns: vec![0],
        err: "gone".into(),
        retry: Retry::Unknown,
    });
    assert_eq!(w.preview.threads()[0].state, ThreadState::Resolved);
}

#[test]
fn pressing_send_twice_does_not_ask_the_agent_the_same_question_twice() {
    let mut w = World::new(base_changed());
    w.press("a");
    w.compose("please fix this");
    let id = w.preview.threads()[0].id;

    let asked = w.preview.dispatch("w1:p9");
    assert_eq!(asked.len(), 1);
    assert_eq!(asked[0].id, id);
    assert_eq!(asked[0].turns, vec![0]);
    w.preview.dispatched("w1:p9", &vec![id], 1);
    assert!(
        w.preview.in_flight.contains(&id),
        "the thread is queued with the worker"
    );

    // The worker has not reported anything yet. Press send again.
    assert!(w.preview.dispatch("w1:p9").is_empty());
    assert_eq!(
        w.preview.in_flight.len(),
        1,
        "still exactly one queued request, not two"
    );
    assert!(
        w.preview
            .active_flash()
            .is_some_and(|f| f.contains("already asking")),
        "and the user is told why nothing new happened: {:?}",
        w.preview.active_flash()
    );
}

#[test]
fn a_failed_send_is_recorded_in_the_thread_not_just_flashed() {
    let mut w = World::new(base_changed());
    w.press("a");
    w.compose("please fix this");
    let id = w.preview.threads()[0].id;

    w.preview.on_reply(ReplyMsg::Failed {
        id,
        turns: vec![0],
        err: "the agent is waiting on a prompt of its own".into(),
        retry: Retry::Pending,
    });
    w.pump();

    let t = &w.preview.threads()[0];
    assert_eq!(t.turns.last().unwrap().author, Author::System);
    assert!(t.turns.last().unwrap().text.contains("waiting on a prompt"));
    // Nothing was delivered, so it is still simply pending.
    assert_ne!(t.state, ThreadState::Failed);
    assert!(t.has_unsent(), "the user can retry once the agent is free");
}

#[test]
fn note_flow_annotate_edit_delete_syncs_both_panes() {
    let mut w = World::new(base_changed());

    // Whole-file note from the list: `a` hands off to the diff pane's box.
    w.press("a");
    w.compose("please refactor this");
    assert_eq!(w.preview.threads().len(), 1);
    assert_eq!(w.list.app.notes.len(), 1, "snapshot synced to the list");
    assert!(
        w.diff_text().contains("please refactor this"),
        "note card rendered"
    );

    // Notes view, edit the note: the box opens with its text.
    w.press("n");
    assert_eq!(w.list.app.mode, Mode::Notes);
    w.press("enter");
    assert_eq!(
        w.preview
            .composer
            .as_ref()
            .map(|c| c.input.text()),
        Some("please refactor this".to_string()),
        "the composer opens prefilled with the note being edited"
    );
    // Clear it and type the replacement.
    w.diff_key(
        KeyCode::Char('u'),
        KeyModifiers {
            ctrl: true,
            ..KeyModifiers::none()
        },
    );
    w.compose("actually delete it");
    assert_eq!(w.list.app.notes[0].text, "actually delete it");

    // Delete it; the empty notes view returns to files by itself.
    w.press("d");
    assert!(w.preview.threads().is_empty());
    assert_eq!(w.list.app.mode, Mode::Files);
}

#[test]
fn annotating_immediately_after_moving_still_opens_the_composer() {
    let mut w = World::new(Files::with(&[
        ("base.txt", Some("one\ntwo\n"), "one\ntwo\nchanged\n"),
        ("second.txt", None, "brand new\n"),
    ]));
    // A realistic debounce, not the zero of the other scenarios.
    w.list.show_debounce = 40;
    w.pump();

    // Move to the other file and annotate without waiting for its diff.
    for code in ['j', 'a'] {
        let deeds = w.list.on_key(Key {
            code: KeyCode::Char(code),
            mods: KeyModifiers::none(),
        });
        w.perform(deeds);
    }
    w.pump();
    w.compose("a note on the file I just moved to");

    assert_eq!(w.preview.threads().len(), 1);
    assert_eq!(
        w.preview.threads()[0].anchor.file,
        "second.txt",
        "the note landed on the wrong file"
    );
}

#[test]
fn staged_note_notes_view_previews_the_staged_diff() {
    let mut w = World::new(base_changed());

    w.press("s"); // stage the only change
    assert_eq!(w.staged_rows(), 1);

    // Whole-file note from the list, on the now-staged file.
    w.press("a");
    w.compose("please refactor this");
    assert_eq!(w.preview.threads().len(), 1);
    assert!(
        w.preview.threads()[0].anchor.cached,
        "note remembers staged side"
    );

    // The notes view shows the staged diff, not an empty one.
    w.press("n");
    assert_eq!(w.list.app.mode, Mode::Notes);
    assert!(
        !matches!(w.preview.state, State::Empty),
        "staged diff should render, not 'no changes in this view'"
    );
    assert!(w.diff_text().contains("changed"));
}

#[test]
fn dead_popup_cancels_instead_of_wedging() {
    let mut w = World::new(Files::with(&[("loose.txt", None, "scratch\n")]));

    w.press("x"); // the confirm popup opens
    assert!(w.list.app.modal.is_some());
    w.answer_popup(None); // its pane dies without answering

    assert!(w.list.app.modal.is_none(), "modal cancelled, not wedged");
    assert!(!w.list.app.modal_external);
    assert!(w.files.on_disk("loose.txt"), "nothing was discarded");

    // And it still works: a new one opens and is answered.
    w.press("x");
    w.answer_popup(Some("n"));
    assert!(w.list.app.modal.is_none());
    assert!(w.files.on_disk("loose.txt"));
}

#[test]
fn stale_probe_result_cannot_fire_after_editdone() {
    let mut w = World::new(base_changed());

    w.list.app.busy = Some("editing…".to_string());
    // The editor ended by itself…
    w.to_list(ToList::EditDone {
        file: "base.txt".into(),
    });
    // …then the probe's result lands, carrying a quit intention.
    w.list.on_event(Event::EditorProbe {
        next: Some(EditorThen::QuitView),
        unsaved: Some(false),
    });
    w.pump();

    assert!(w.list.app.after_edit.is_none(), "stale probe discarded");
    assert!(!w.list.app.should_quit, "no spontaneous quit");
}

#[test]
fn enter_runs_the_editor_and_editdone_unlocks() {
    let mut w = World::new(base_changed());
    w.press("enter");

    // The recording editor ran with the file (and a +line jump).
    assert_eq!(w.editor.runs.len(), 1);
    let argv = &w.editor.runs[0];
    assert!(argv.iter().any(|a| a.ends_with("base.txt")), "{argv:?}");
    assert!(
        argv.iter().any(|a| a.starts_with('+')),
        "jumps to the change"
    );
    assert_eq!(argv, &vec!["nvim", "+3", "/repo/base.txt"]);
    // EditDone came back: the lockout is released again.
    assert!(w.list.app.busy.is_none(), "unlocked after EditDone");
    assert!(w.focus.contains(&"preview"), "{:?}", w.focus);
    assert_eq!(w.focus.last(), Some(&"list"));
}

#[test]
fn quit_hands_shakes_both_panes_down() {
    let mut w = World::new(base_changed());
    w.press("q");
    assert!(w.list.should_quit());
    assert!(w.preview.should_quit, "preview received Quit");
}

/// `m` in the log view puts the whole commit message in the diff pane.
#[test]
fn m_in_the_log_view_shows_the_whole_commit_message_in_the_preview() {
    let mut w = World::new(base_changed());
    w.commits = vec![CommitInfo {
        sha: "0123456789".into(),
        short: "0123456".into(),
        author: "t".into(),
        date: "2024-01-01".into(),
        subject: "tighten the retry budget".into(),
        body: "The old budget let a stalled upstream hold the queue.".into(),
        refs: vec![],
    }];

    w.press("l");
    assert_eq!(w.list.app.mode, Mode::Log, "l opens the log view");

    w.press("m");

    let shown = w.diff_text();
    assert!(
        shown.contains("tighten the retry budget"),
        "subject missing from the preview: {shown:?}"
    );
    assert!(
        shown.contains("The old budget let a stalled upstream hold the queue."),
        "body missing from the preview — this is the whole point: {shown:?}"
    );
    assert!(matches!(w.preview.state, State::Message(_)));
    assert!(w.preview.body_message().is_none());
}

// ---- the diff pane by itself --------------------------------------------------

#[test]
fn the_cursor_keeps_off_cards_and_the_selection_becomes_an_anchor() {
    let mut w = World::new(Files::with(&[(
        "base.txt",
        Some("one\ntwo\n"),
        "one\ntwo\nthree\nfour\n",
    )]));
    let k = |c: char| Key {
        code: KeyCode::Char(c),
        mods: KeyModifiers::none(),
    };
    w.preview.on_key(k('j'));
    w.preview.on_key(k('j'));
    assert_eq!(w.preview.cursor_file_line(), Some(3));
    w.preview.on_key(k('v'));
    w.preview.on_key(k('j'));
    assert_eq!(w.preview.selection(), (2, 3));
    w.preview.on_key(k('a'));
    w.pump();
    w.compose("why two lines?");
    let anchor = &w.preview.threads()[0].anchor;
    assert_eq!((anchor.start, anchor.end), (3, 4));
    assert_eq!(anchor.snippet, "+three\n+four\n");
    assert_eq!(anchor.blob.as_deref(), Some("blob"));
    for _ in 0..9 {
        w.preview.on_key(k('k'));
        assert!(!w.preview.view.is_card_line(w.preview.view.cursor_line));
        w.preview.on_key(k('j'));
        assert!(!w.preview.view.is_card_line(w.preview.view.cursor_line));
    }
}

#[test]
fn closing_the_box_without_a_text_leaves_no_note() {
    let mut w = World::new(base_changed());
    w.press("a");
    assert!(w.preview.composer.is_some());
    w.diff_key(KeyCode::Char('x'), KeyModifiers::none());
    w.diff_key(KeyCode::Esc, KeyModifiers::none());
    assert!(w.preview.composer.is_none());
    assert!(w.preview.pending.is_none());
    assert!(w.preview.threads().is_empty());
    w.press("a");
    w.diff_key(KeyCode::Char(' '), KeyModifiers::none());
    w.diff_key(KeyCode::Enter, KeyModifiers::none());
    assert!(w.preview.threads().is_empty());
    assert!(w.preview.composer.is_none());
}

#[test]
fn scrolling_stays_inside_the_document() {
    let text: String = (0..200).map(|i| format!("line {i}\n")).collect();
    let mut w = World::new(Files::with(&[("long.txt", None, &text)]));
    w.preview.set_viewport(80, 20);
    w.preview.on_mouse(Mouse::ScrollUp, 5);
    assert_eq!(w.preview.view.scroll, 0);
    w.preview.scroll_by(10_000);
    assert_eq!(
        w.preview.view.scroll as usize,
        w.preview.view.visible_row_count() - 20
    );
    w.preview.page(false, true);
    assert_eq!(w.preview.view.scroll, 160);
}

#[test]
fn an_old_diff_is_not_put_on_screen() {
    let mut w = World::new(base_changed());
    let stale = ShowReq {
        file: "other.txt".into(),
        ..w.preview.current.clone().unwrap()
    };
    w.preview.apply_diff(&stale, Err("too late".into()));
    assert!(matches!(w.preview.state, State::Diff));
    let current = w.preview.current.clone().unwrap();
    w.preview.apply_diff(&current, Err("broken".into()));
    match &w.preview.state {
        State::Error(e) => assert_eq!(e, "broken"),
        _ => panic!("no error shown"),
    }
    assert_eq!(
        w.preview.body_message().as_deref(),
        Some(" diff error: broken")
    );
}

#[test]
fn a_folded_thread_shows_its_newest_note_only() {
    let mut w = World::new(base_changed());
    w.press("a");
    w.compose("first note");
    let id = w.preview.threads()[0].id;
    w.preview.on_reply(ReplyMsg::Delivered {
        id,
        turns: vec![0],
        agent: Box::new(agent()),
    });
    w.preview.append_human_turn(id, "second note".into());
    assert!(w.diff_text().contains("first note"));
    assert!(w.diff_text().contains("second note"));
    w.preview.toggle_thread_at_cursor();
    assert!(!w.diff_text().contains("first note"));
    assert!(w.diff_text().contains("second note"));
    assert!(w.diff_text().contains("… 1 earlier note"));
}

#[test]
fn a_version_mismatch_is_told() {
    let mut w = World::restored(base_changed(), "base.txt", "from before");
    w.list.app.notes.clear();
    w.to_list(ToList::Ready { proto: PROTO + 1 });
    assert_eq!(
        w.list.app.active_status(),
        Some("preview/list version mismatch — reopen gitview")
    );
    let notes = w.preview.threads().iter().map(|t| t.meta()).collect();
    w.to_list(ToList::Notes { notes });
    assert!(w.list.app.notes.is_empty(), "a snapshot of another protocol is refused");
    w.to_list(ToList::Ready { proto: PROTO });
    let notes = w.preview.threads().iter().map(|t| t.meta()).collect();
    w.to_list(ToList::Notes { notes });
    assert_eq!(w.list.app.notes.len(), 1);
}

#[test]
fn an_editor_that_cannot_run_is_an_error_on_screen() {
    let mut w = World::new(base_changed());
    assert!(!w
        .preview
        .suspended(Err("no such file or directory\nat line 3".into())));
    match &w.preview.state {
        State::Error(e) => assert_eq!(e, "no such file or directory"),
        _ => panic!("no error shown"),
    }
    assert!(w.preview.suspended(Ok(true)));
    assert!(!w.preview.suspended(Ok(false)));
}

// ---- editing and committing, step by step ---------------------------------------

#[test]
fn an_editor_of_the_tab_is_tried_before_the_diff_pane() {
    let mut w = World::new(base_changed());
    assert!(matches!(w.list.start_edit("base.txt", true, true), Step::TryTab));
    assert!(matches!(w.list.open_in_tab_nvim("base.txt", true), Step::Over));
    match w.list.open_in_tab_nvim("base.txt", false) {
        Step::Tell(ToPreview::Edit { file }) => assert_eq!(file, "base.txt"),
        other => panic!("{other:?}"),
    }
    // Not outside a pane, and not where the settings say no.
    assert!(matches!(
        w.list.start_edit("base.txt", true, false),
        Step::Tell(ToPreview::Edit { .. })
    ));
    w.list.app.cfg.reuse_tab_nvim = false;
    assert!(matches!(
        w.list.start_edit("base.txt", true, true),
        Step::Tell(ToPreview::Edit { .. })
    ));
    assert_eq!(w.list.app.busy, None);
}

#[test]
fn a_file_that_is_gone_is_not_edited() {
    let mut w = World::new(base_changed());
    assert!(matches!(w.list.start_edit("gone", false, true), Step::Over));
    let gone = Some("file no longer exists — nothing to edit");
    assert_eq!(w.list.app.active_status(), gone);
    w.list.app.status_msg = None;
    assert!(matches!(w.list.remote_open("gone", false, true, true), Step::Over));
    assert_eq!(w.list.app.active_status(), gone);
    assert_eq!(w.list.app.busy, None);
}

#[test]
fn the_pane_is_busy_only_if_the_line_held() {
    let mut w = World::new(base_changed());
    assert!(matches!(w.list.edit_told("base.txt"), Step::Focus));
    assert_eq!(w.list.app.busy.as_deref(), Some("editing base.txt…"));
    w.list.app.busy = None;
    assert!(matches!(w.list.commit_told(), Step::Focus));
    assert_eq!(w.list.app.busy.as_deref(), Some("committing…"));
    w.list.app.busy = None;
    w.list.link = Link::Down;
    assert!(matches!(w.list.edit_told("base.txt"), Step::Over));
    assert!(matches!(w.list.commit_told(), Step::Over));
    assert_eq!(w.list.app.busy, None);
}

#[test]
fn the_running_editor_takes_another_file_or_says_why_not() {
    let mut w = World::new(base_changed());
    assert!(matches!(w.list.remote_open("a", true, true, true), Step::Focus));
    assert_eq!(w.list.app.busy.as_deref(), Some("editing a…"));
    assert!(matches!(w.list.remote_open("b", true, false, true), Step::Over));
    assert_eq!(
        w.list.app.active_status(),
        Some("could not switch the editor's file")
    );
    assert!(matches!(w.list.remote_open("b", true, false, false), Step::Over));
    assert_eq!(
        w.list.app.active_status(),
        Some("editor is open — close it first")
    );
    assert_eq!(w.list.app.busy.as_deref(), Some("editing a…"));
}

#[test]
fn a_commit_needs_something_staged() {
    let mut w = World::new(base_changed());
    assert!(matches!(w.list.start_commit(Ok(0)), Step::Over));
    assert_eq!(
        w.list.app.active_status(),
        Some("nothing staged — s to stage files")
    );
    assert!(matches!(w.list.start_commit(Err("locked".into())), Step::Over));
    assert_eq!(
        w.list.app.active_status(),
        Some("commit preflight failed: locked")
    );
    match w.list.start_commit(Ok(2)) {
        Step::Tell(ToPreview::GitInPane { argv }) => assert_eq!(argv, vec!["commit", "-e"]),
        other => panic!("{other:?}"),
    }
}

/// Notes where a command was run, and with what, and gives a fixed answer.
struct FixedHost {
    answer: Result<bool, String>,
    seen: Vec<(String, Vec<String>, Vec<(String, String)>)>,
}

impl EditorHost for FixedHost {
    fn run(
        &mut self,
        cwd: &str,
        argv: &[String],
        envs: &[(String, String)],
    ) -> Result<bool, String> {
        self.seen.push((cwd.to_string(), argv.to_vec(), envs.to_vec()));
        self.answer.clone()
    }
}

#[test]
fn a_command_runs_in_the_root_with_what_it_was_given() {
    let mut w = World::new(base_changed());
    let argv = vec!["git".to_string(), "commit".to_string()];
    let envs = w.preview.git_env(false, false);
    assert_eq!(envs, vec![("GIT_EDITOR".to_string(), "nvim".to_string())]);
    assert!(w.preview.git_env(true, false).is_empty());
    assert!(w.preview.git_env(false, true).is_empty());
    let mut host = FixedHost {
        answer: Ok(true),
        seen: vec![],
    };
    assert!(w.preview.run_suspended(&argv, &envs, &mut host));
    let root = w.preview.repo.root.clone();
    assert_eq!(host.seen, vec![(root, argv.clone(), envs.clone())]);
    host.answer = Ok(false);
    assert!(!w.preview.run_suspended(&argv, &envs, &mut host));
    assert!(matches!(w.preview.state, State::Diff));
    host.answer = Err("no such editor\nmore".into());
    assert!(!w.preview.run_suspended(&argv, &envs, &mut host));
    assert!(matches!(&w.preview.state, State::Error(e) if e == "no such editor"));
}
