//! What the list pane does with the events that it is woken by. The run loop
//! performs what these functions ask for and hands the outcome back.

use vstd::prelude::*;

use crate::compose::copy_text;
use crate::git::{ChangeKind, CommitInfo, FileEntry, Scope};
use crate::ipc::{NoteMeta, ToList, ToPreview, PROTO};
use crate::keymap::{Action, Key, KeyCode, KeyModifiers};
use crate::list::{App, EditorThen, Modal, Need};
use crate::list_rows::{Mode, Section};
use crate::list_views::copy_commit;
use crate::path::{is_same_file, place, same_file, PlaceV};
use crate::preview::{same_option, Mouse};
use crate::text::{concat2, decimal, decimal_of, same, trim, trimmed};

verus! {

// ---- messages ---------------------------------------------------------------------------

/// A request for a diff, as a message.
pub open spec fn is_show(m: ToPreview, file: Seq<char>, orig: Option<Seq<char>>, scope: Scope, cached: bool, kind: ChangeKind, commit: Option<Seq<char>>) -> bool {
    m matches ToPreview::Show { file: f, orig_path: o, scope: s, cached: c, kind: k, commit: m2 } && f@
        == file && o.deep_view() == orig && s == scope && c == cached && k == kind && m2.deep_view()
        == commit
}

/// What the selection shows: its file, and which commit's change to it.
#[derive(Debug)]
pub struct ShowKey {
    pub file: String,
    pub scope: Scope,
    pub cached: bool,
    pub commit: Option<String>,
}

#[verifier::ext_equal]
pub struct ShowKeyV {
    pub file: PlaceV,
    pub scope: Scope,
    pub cached: bool,
    pub commit: Option<Seq<char>>,
}

impl DeepView for ShowKey {
    type V = ShowKeyV;

    open spec fn deep_view(&self) -> ShowKeyV {
        ShowKeyV {
            file: place(self.file@),
            scope: self.scope,
            cached: self.cached,
            commit: self.commit.deep_view(),
        }
    }
}

fn same_key(a: &Option<ShowKey>, b: &Option<ShowKey>) -> (r: bool)
    ensures
        r == (a.deep_view() == b.deep_view()),
{
    match (a, b) {
        (Some(x), Some(y)) => is_same_file(x.file.as_str(), y.file.as_str()) && x.scope == y.scope && x.cached
            == y.cached && same_option(&x.commit, &y.commit),
        (None, None) => true,
        _ => false,
    }
}

/// The first note with an id, or the number of notes.
pub open spec fn note_place(notes: Seq<NoteMeta>, id: u64, i: int) -> int
    decreases notes.len() - i,
{
    if i < 0 || i >= notes.len() || notes[i].id == id {
        i
    } else {
        note_place(notes, id, i + 1)
    }
}

/// The first file with a path, or the number of files.
pub open spec fn entry_place(entries: Seq<FileEntry>, path: Seq<char>, i: int) -> int
    decreases entries.len() - i,
{
    if i < 0 || i >= entries.len() || same_file(entries[i].path@, path) {
        i
    } else {
        entry_place(entries, path, i + 1)
    }
}

proof fn lemma_note_place(notes: Seq<NoteMeta>, id: u64, i: int, k: int)
    requires
        0 <= i <= k < notes.len(),
        notes[k].id == id,
    ensures
        i <= note_place(notes, id, i) <= k,
    decreases k - i,
{
    if notes[i].id != id {
        lemma_note_place(notes, id, i + 1, k);
    }
}

impl App {
    /// The commit that the shown files are of.
    pub open spec fn shown_commit(self) -> Option<Seq<char>> {
        match (self.mode, self.commit) {
            (Mode::CommitFiles, Some(c)) => Some(c.sha@),
            _ => None,
        }
    }

    /// Whether the selection can be shown.
    pub open spec fn showable(self) -> bool {
        self.at_file() is Some && (self.mode != Mode::CommitFiles || self.commit is Some)
    }

    /// The request for the selection's diff; none where no file is selected.
    pub fn current_show(&self) -> (r: Option<ToPreview>)
        ensures
            match r {
                None => !self.showable(),
                Some(m) => {
                    &&& self.showable()
                    &&& self.at_file() matches Some(q)
                    &&& is_show(
                        m,
                        self.entries@[q.0].path@,
                        self.entries@[q.0].orig_path.deep_view(),
                        self.scope,
                        q.1 == Section::Staged,
                        self.entries@[q.0].kind,
                        self.shown_commit(),
                    )
                },
            },
    {
        match self.selected_entry() {
            None => None,
            Some((e, section)) => {
                let commit: Option<String> = if self.mode == Mode::CommitFiles {
                    match &self.commit {
                        None => {
                            return None;
                        },
                        Some(c) => Some(c.sha.as_str().to_owned()),
                    }
                } else {
                    None
                };
                Some(
                    ToPreview::Show {
                        file: e.path.as_str().to_owned(),
                        orig_path: copy_text(&e.orig_path),
                        scope: self.scope,
                        cached: section.cached(),
                        kind: e.kind,
                        commit,
                    },
                )
            },
        }
    }

    /// What is on show. Where it changes, the diff is to be asked for again.
    #[verifier::opaque]
    pub open spec fn showing(self) -> Option<ShowKeyV> {
        if self.mode == Mode::Notes {
            match self.at_note() {
                Some(k) => Some(
                    ShowKeyV {
                        file: place(self.notes@[k].file@),
                        scope: self.scope,
                        cached: false,
                        commit: Some("note-"@ + decimal(self.notes@[k].id as nat)),
                    },
                ),
                None => None,
            }
        } else {
            match self.at_file() {
                Some(q) => Some(
                    ShowKeyV {
                        file: place(self.entries@[q.0].path@),
                        scope: self.scope,
                        cached: q.1 == Section::Staged,
                        commit: self.shown_commit(),
                    },
                ),
                None => None,
            }
        }
    }

    pub fn show_key(&self) -> (r: Option<ShowKey>)
        ensures
            r.deep_view() == self.showing(),
    {
        proof {
            reveal(App::showing);
        }
        if self.mode == Mode::Notes {
            return match self.selected_note() {
                None => None,
                Some(n) => Some(
                    ShowKey {
                        file: n.file.as_str().to_owned(),
                        scope: self.scope,
                        cached: false,
                        commit: Some(concat2("note-", decimal_of(n.id).as_str())),
                    },
                ),
            };
        }
        match self.selected_entry() {
            None => None,
            Some((e, section)) => {
                let commit: Option<String> = if self.mode == Mode::CommitFiles {
                    match &self.commit {
                        None => None,
                        Some(c) => Some(c.sha.as_str().to_owned()),
                    }
                } else {
                    None
                };
                Some(
                    ShowKey {
                        file: e.path.as_str().to_owned(),
                        scope: self.scope,
                        cached: section.cached(),
                        commit,
                    },
                )
            },
        }
    }

    /// The request that shows a note's file: its change in the working tree, on
    /// the side that the note was written on.
    pub open spec fn note_shown(self, id: u64, m: ToPreview) -> bool {
        let k = note_place(self.notes@, id, 0);
        let file = self.notes@[k].file@;
        let e = entry_place(self.entries@, file, 0);
        let (orig, kind) = if e < self.entries@.len() {
            (self.entries@[e].orig_path.deep_view(), self.entries@[e].kind)
        } else {
            (None, ChangeKind::Modified)
        };
        &&& 0 <= k < self.notes@.len()
        &&& is_show(m, file, orig, Scope::Worktree, self.notes@[k].cached, kind, None)
    }

    pub fn note_show(&self, id: u64) -> (r: Option<ToPreview>)
        ensures
            match r {
                None => note_place(self.notes@, id, 0) >= self.notes@.len(),
                Some(m) => self.note_shown(id, m),
            },
    {
        let mut k: usize = 0;
        while k < self.notes.len() && self.notes[k].id != id
            invariant
                k <= self.notes@.len(),
                note_place(self.notes@, id, 0) == note_place(self.notes@, id, k as int),
            decreases self.notes@.len() - k,
        {
            k += 1;
        }
        if k >= self.notes.len() {
            return None;
        }
        let n: &NoteMeta = &self.notes[k];
        let mut e: usize = 0;
        while e < self.entries.len() && !is_same_file(self.entries[e].path.as_str(), n.file.as_str())
            invariant
                e <= self.entries@.len(),
                entry_place(self.entries@, n.file@, 0) == entry_place(self.entries@, n.file@, e as int),
            decreases self.entries@.len() - e,
        {
            e += 1;
        }
        let (orig_path, kind): (Option<String>, ChangeKind) = if e < self.entries.len() {
            (copy_text(&self.entries[e].orig_path), self.entries[e].kind)
        } else {
            (None, ChangeKind::Modified)
        };
        Some(
            ToPreview::Show {
                file: n.file.as_str().to_owned(),
                orig_path,
                scope: Scope::Worktree,
                cached: n.cached,
                kind,
                commit: None,
            },
        )
    }

    /// A key that scrolls the diff, as a message.
    pub open spec fn scroll_of(action: Option<Action>) -> Option<ToPreview> {
        match action {
            Some(Action::ScrollDown) => Some(ToPreview::Scroll { delta: 1 }),
            Some(Action::ScrollUp) => Some(ToPreview::Scroll { delta: -1i32 as i32 }),
            Some(Action::HalfPageDown) => Some(ToPreview::Page { down: true, full: false }),
            Some(Action::HalfPageUp) => Some(ToPreview::Page { down: false, full: false }),
            Some(Action::DiffTop) => Some(ToPreview::Scroll { delta: i32::MIN }),
            Some(Action::DiffBottom) => Some(ToPreview::Scroll { delta: i32::MAX }),
            _ => None,
        }
    }

    pub fn scroll_message(&self, key: Key) -> (r: Option<ToPreview>)
        requires
            self.wf(),
        ensures
            r == App::scroll_of(self.keys.action_of(key)),
    {
        match self.keys.action(key) {
            Some(Action::ScrollDown) => Some(ToPreview::Scroll { delta: 1 }),
            Some(Action::ScrollUp) => Some(ToPreview::Scroll { delta: -1 }),
            Some(Action::HalfPageDown) => Some(ToPreview::Page { down: true, full: false }),
            Some(Action::HalfPageUp) => Some(ToPreview::Page { down: false, full: false }),
            Some(Action::DiffTop) => Some(ToPreview::Scroll { delta: i32::MIN }),
            Some(Action::DiffBottom) => Some(ToPreview::Scroll { delta: i32::MAX }),
            _ => None,
        }
    }
}

// ---- the session ------------------------------------------------------------------------

/// The line to the diff pane.
#[derive(Debug, Clone, Copy, PartialEq, Eq, Structural)]
pub enum Link {
    Down,
    Up,
    /// The pane speaks another protocol. Its notes are not read.
    Foreign,
}

/// The list pane with its link to the diff pane.
pub struct Session {
    pub app: App,
    /// The line to the diff pane.
    pub link: Link,
    /// Whether questions can be asked in a window of their own.
    pub popup_supported: bool,
    /// Whether a host runs the panes.
    pub in_herdr: bool,
    /// Whether there is a diff pane to connect to.
    pub has_socket: bool,
    /// Whether the editor is being asked if it holds unsaved text.
    pub probe_pending: bool,
    /// Whether the selection is to be shown.
    pub show_dirty: bool,
    /// Since when.
    pub dirty_since: u64,
    /// How long the selection has to rest before it is shown.
    pub show_debounce: u64,
    pub quit_sent: bool,
}

/// What the run loop is to do.
#[derive(Debug)]
pub enum Deed {
    Send(ToPreview),
    /// Connect to the diff pane.
    Connect,
    /// Open a file in the editor.
    Open { file: String },
    /// Have the running editor open a file.
    Switch { file: String },
    /// See what is staged, to commit it.
    Commit,
    /// Send, and give the diff pane the focus.
    HandOff(ToPreview),
    /// Put a question in a popup.
    Ask(String),
    /// Ask the editor whether it holds unsaved text.
    Probe(Option<EditorThen>),
    /// Take the focus.
    FocusSelf,
    /// Look up the commit that was just made.
    LastCommit,
}

/// What the poll thread has to know to load the files.
#[derive(Debug)]
pub struct Shared {
    pub scope: Scope,
    pub merge_base: Option<String>,
    pub show_untracked: bool,
}

/// How long the selection has to rest, in milliseconds.
pub const SHOW_DEBOUNCE_MS: u64 = 40;

impl Session {
    pub fn new(app: App, popup_supported: bool, in_herdr: bool, has_socket: bool) -> (r: Session)
        ensures
            r == (Session {
                app,
                link: Link::Down,
                popup_supported,
                in_herdr,
                has_socket,
                probe_pending: false,
                show_dirty: true,
                dirty_since: app.now,
                show_debounce: SHOW_DEBOUNCE_MS,
                quit_sent: false,
            }),
    {
        let now: u64 = app.now;
        Session {
            app,
            link: Link::Down,
            popup_supported,
            in_herdr,
            has_socket,
            probe_pending: false,
            show_dirty: true,
            dirty_since: now,
            show_debounce: SHOW_DEBOUNCE_MS,
            quit_sent: false,
        }
    }

    /// What the poll thread has to know now.
    pub fn sync_shared(&self) -> (r: Shared)
        ensures
            r.scope == self.app.scope,
            r.merge_base.deep_view() == self.app.merge_base.deep_view(),
            r.show_untracked == self.app.cfg.show_untracked,
    {
        Shared {
            scope: self.app.scope,
            merge_base: copy_text(&self.app.merge_base),
            show_untracked: self.app.cfg.show_untracked,
        }
    }

    pub fn should_quit(&self) -> (r: bool)
        ensures
            r == (self.app.should_quit && self.quit_sent),
    {
        self.app.should_quit && self.quit_sent
    }

    /// The session with its selection to be shown.
    pub open spec fn dirtied(self) -> Session {
        Session { show_dirty: true, dirty_since: self.app.now, ..self }
    }

    fn mark_dirty(&mut self)
        ensures
            *final(self) == old(self).dirtied(),
    {
        self.show_dirty = true;
        self.dirty_since = self.app.now;
    }

    /// The diff pane is there.
    pub fn adopt_conn(&mut self)
        ensures
            *final(self) == (Session { link: Link::Up, ..*old(self) }).dirtied(),
    {
        self.link = Link::Up;
        self.mark_dirty();
    }

    /// The files changed on disk.
    pub fn on_refresh(&mut self, entries: Vec<FileEntry>)
        ensures
            ({
                let p = Session { app: final(self).app, ..*old(self) };
                &&& *final(self) == p.dirtied()
                &&& if old(self).app.mode == Mode::Files {
                    old(self).app.refreshed(final(self).app, entries)
                } else {
                    final(self).app == old(self).app
                }
            }),
    {
        self.app.apply_refresh(entries);
        self.mark_dirty();
    }

    // ---- opening things -------------------------------------------------------------------

    /// What opening the selection does: a commit's files are loaded, a note is
    /// edited, a directory opens or closes, a file goes to the editor.
    #[verifier::opaque]
    pub open spec fn activated(self, after: Session, deed: Option<Deed>) -> bool {
        let a = self.app;
        &&& after == (Session { app: after.app, ..self })
        &&& match a.mode {
            Mode::Log => {
                &&& deed is None
                &&& after.app == (App {
                    need: if a.at_commit() is Some {
                        Some(Need::CommitFiles)
                    } else {
                        a.need
                    },
                    ..a
                })
            },
            Mode::Notes => {
                &&& deed is None
                &&& after.app == (App {
                    edit_note_request: match a.at_note() {
                        Some(k) => Some(a.notes@[k].id),
                        None => a.edit_note_request,
                    },
                    ..a
                })
            },
            _ => if a.at_dir() is Some {
                deed is None && a.dir_toggled(after.app)
            } else if a.busy is Some {
                &&& after.app == a
                &&& match a.at_file() {
                    Some(q) => deed matches Some(Deed::Switch { file }) && file@
                        == a.entries@[q.0].path@,
                    None => deed is None,
                }
            } else if self.link != Link::Down {
                &&& after.app == a
                &&& match a.at_file() {
                    Some(q) => deed matches Some(Deed::Open { file }) && file@
                        == a.entries@[q.0].path@,
                    None => deed is None,
                }
            } else {
                deed is None && a.tells(after.app, App::no_preview_words(self.in_herdr))
            },
        }
    }

    pub fn activate_selection(&mut self) -> (r: Option<Deed>)
        ensures
            old(self).activated(*final(self), r),
    {
        proof {
            reveal(Session::activated);
        }
        if self.app.mode == Mode::Log {
            self.app.open_commit();
            return None;
        }
        if self.app.mode == Mode::Notes {
            self.edit_selected();
            return None;
        }
        self.open_selected()
    }

    fn edit_selected(&mut self)
        requires
            old(self).app.mode == Mode::Notes,
        ensures
            old(self).activated(*final(self), None),
    {
        proof {
            reveal(Session::activated);
        }
        let id: Option<u64> = match self.app.selected_note() {
            Some(n) => Some(n.id),
            None => None,
        };
        if id.is_some() {
            self.app.edit_note_request = id;
        }
    }

    fn open_selected(&mut self) -> (r: Option<Deed>)
        requires
            old(self).app.mode == Mode::Files || old(self).app.mode == Mode::CommitFiles,
        ensures
            old(self).activated(*final(self), r),
    {
        proof {
            reveal(Session::activated);
        }
        if self.app.selected_dir().is_some() {
            let _ = self.app.toggle_selected_dir();
            return None;
        }
        let file: Option<String> = match self.app.selected_entry() {
            Some((e, _)) => Some(e.path.as_str().to_owned()),
            None => None,
        };
        if self.app.busy.is_some() {
            match file {
                Some(file) => Some(Deed::Switch { file }),
                None => None,
            }
        } else if self.link != Link::Down {
            match file {
                Some(file) => Some(Deed::Open { file }),
                None => None,
            }
        } else {
            if self.in_herdr {
                self.app.set_status("preview not connected — press r to reconnect");
            } else {
                self.app.set_status("editing needs the preview pane (run inside herdr)");
            }
            None
        }
    }

    /// The commit whose message is meant.
    pub open spec fn message_of(a: App) -> Option<CommitInfo> {
        match a.mode {
            Mode::Log => match a.at_commit() {
                Some(k) => Some(a.commits@[k]),
                None => None,
            },
            Mode::CommitFiles => a.commit,
            _ => None,
        }
    }

    /// What asking for a commit's message does.
    #[verifier::opaque]
    pub open spec fn message_asked(self, after: Session, deed: Option<Deed>) -> bool {
        let a = self.app;
        &&& after == (Session { app: after.app, ..self })
        &&& if a.mode != Mode::Log && a.mode != Mode::CommitFiles {
            deed is None && a.tells(after.app, "no commit here — open the log first (l)"@)
        } else {
            match Session::message_of(a) {
                None => deed is None && a.tells(after.app, "no commit selected"@),
                Some(c) => {
                    &&& deed matches Some(
                        Deed::Send(
                            ToPreview::ShowCommitMessage { short, subject, author, date, body },
                        ),
                    )
                    &&& short@ == c.short@
                    &&& subject@ == c.subject@
                    &&& author@ == c.author@
                    &&& date@ == c.date@
                    &&& body@ == c.body@
                    &&& if c.body@.len() == 0 {
                        a.tells(after.app, "commit has no message body"@)
                    } else {
                        after.app == a
                    }
                },
            }
        }
    }

    pub fn show_commit_message(&mut self) -> (r: Option<Deed>)
        ensures
            old(self).message_asked(*final(self), r),
    {
        proof {
            reveal(Session::message_asked);
        }
        let info: Option<CommitInfo> = match self.app.mode {
            Mode::Log => match self.app.selected_commit() {
                Some(c) => Some(copy_commit(c)),
                None => None,
            },
            Mode::CommitFiles => match &self.app.commit {
                Some(c) => Some(copy_commit(c)),
                None => None,
            },
            _ => {
                self.app.set_status("no commit here — open the log first (l)");
                return None;
            },
        };
        match info {
            None => {
                self.app.set_status("no commit selected");
                None
            },
            Some(c) => {
                if c.body.as_str().unicode_len() == 0 {
                    self.app.set_status("commit has no message body");
                }
                Some(
                    Deed::Send(
                        ToPreview::ShowCommitMessage {
                            short: c.short,
                            subject: c.subject,
                            author: c.author,
                            date: c.date,
                            body: c.body,
                        },
                    ),
                )
            },
        }
    }

    // ---- keys and the mouse -----------------------------------------------------------------

    /// What a key press leads to, before it is seen whether another diff is to
    /// be shown.
    #[verifier::opaque]
    pub open spec fn key_handled(self, after: Session, key: Key, deed: Option<Deed>) -> bool {
        let a = self.app;
        let action = a.keys.action_of(key);
        let idle = self.link != Link::Down && a.busy is None;
        if a.modal is Some {
            &&& deed is None
            &&& after == (Session { app: after.app, ..self })
            &&& a.keyed(after.app, key, self.in_herdr)
        } else if action == Some(Action::Edit) {
            self.activated(after, deed)
        } else if idle && action == Some(Action::Commit) && a.mode == Mode::Files {
            after == self && deed == Some(Deed::Commit)
        } else if idle && action == Some(Action::CommitMessage) {
            self.message_asked(after, deed)
        } else if action == Some(Action::Refresh) && self.link == Link::Down {
            let told = App { status_msg: after.app.status_msg, ..a };
            &&& after == (Session { app: after.app, ..self })
            &&& told.keyed(after.app, key, self.in_herdr)
            &&& if self.has_socket {
                &&& deed == Some(Deed::Connect)
                &&& after.app.status_msg matches Some(m)
                &&& m.0@ == "reconnecting…"@ && m.1 == a.now
            } else {
                &&& deed is None
                &&& after.app.status_msg == a.status_msg
            }
        } else if a.busy is None && App::scroll_of(action) is Some {
            after == self && deed == Some(Deed::Send(App::scroll_of(action)->0))
        } else {
            &&& deed is None
            &&& after == (Session { app: after.app, ..self })
            &&& a.keyed(after.app, key, self.in_herdr)
        }
    }

    fn reconnect(&mut self, key: Key) -> (r: Option<Deed>)
        requires
            old(self).app.wf(),
            old(self).app.modal is None,
            old(self).app.keys.action_of(key) == Some(Action::Refresh),
            old(self).link == Link::Down,
        ensures
            old(self).key_handled(*final(self), key, r),
    {
        proof {
            reveal(Session::key_handled);
            reveal(App::acts);
            reveal(App::keyed);
            reveal(App::tells);
        }
        let deed: Option<Deed> = if self.has_socket {
            self.app.set_status("reconnecting…");
            Some(Deed::Connect)
        } else {
            None
        };
        self.app.on_key(key, self.in_herdr);
        deed
    }

    fn handle_key(&mut self, key: Key) -> (r: Option<Deed>)
        requires
            old(self).app.wf(),
        ensures
            old(self).key_handled(*final(self), key, r),
    {
        proof {
            reveal(Session::key_handled);
        }
        let idle: bool = self.link != Link::Down && self.app.busy.is_none();
        let action: Option<Action> = self.app.keys.action(key);
        if self.app.modal.is_some() {
            self.app.on_key(key, self.in_herdr);
            return None;
        }
        match action {
            Some(Action::Edit) => {
                return self.activate_selection();
            },
            Some(Action::Commit) => {
                if idle && self.app.mode == Mode::Files {
                    return Some(Deed::Commit);
                }
            },
            Some(Action::CommitMessage) => {
                if idle {
                    return self.show_commit_message();
                }
            },
            Some(Action::Refresh) => {
                if self.link == Link::Down {
                    return self.reconnect(key);
                }
            },
            _ => {},
        }
        if self.app.busy.is_none() {
            match self.app.scroll_message(key) {
                Some(m) => {
                    return Some(Deed::Send(m));
                },
                None => {},
            }
        }
        self.app.on_key(key, self.in_herdr);
        None
    }

    /// The session after another diff is to be shown, or the same one again.
    #[verifier::opaque]
    pub open spec fn settled(self, before: Option<ShowKeyV>) -> Session {
        let s = Session { app: App { needs_reshow: false, ..self.app }, ..self };
        if self.app.showing() != before || self.app.needs_reshow {
            s.dirtied()
        } else {
            s
        }
    }

    /// Show again where what an event asked for has changed what is to be shown
    /// since `before`.
    pub fn settle(&mut self, before: &Option<ShowKey>)
        ensures
            *final(self) == old(self).settled(before.deep_view()),
    {
        proof {
            reveal(Session::settled);
        }
        let now: Option<ShowKey> = self.app.show_key();
        let moved: bool = !same_key(&now, before);
        if moved || self.app.needs_reshow {
            self.app.needs_reshow = false;
            self.mark_dirty();
        }
    }

    /// Whether a key only moves about.
    pub open spec fn browses(action: Option<Action>) -> bool {
        action == Some(Action::Down) || action == Some(Action::Up) || action == Some(Action::Top)
            || action == Some(Action::Bottom)
    }

    /// What a key press leads to. Moving about while the editor runs has the
    /// editor asked whether it can be closed.
    pub open spec fn keyed(self, after: Session, key: Key, deeds: Seq<Deed>) -> bool {
        exists|mid: Session, deed: Option<Deed>|
            {
                let s = mid.settled(self.app.showing());
                let probe = s.app.busy is Some && !s.probe_pending && Session::browses(
                    self.app.keys.action_of(key),
                ) && s.app.modal is None && s.app.editor_close_request is None;
                &&& #[trigger] self.key_handled(mid, key, deed)
                &&& after == (Session { probe_pending: s.probe_pending || probe, ..s })
                &&& deeds == (match deed {
                    Some(d) => seq![d],
                    None => seq![],
                }) + (if probe {
                    seq![Deed::Probe(None)]
                } else {
                    seq![]
                })
            }
    }

    pub fn on_key(&mut self, key: Key) -> (r: Vec<Deed>)
        requires
            old(self).app.wf(),
        ensures
            old(self).keyed(*final(self), key, r@),
    {
        let action: Option<Action> = self.app.keys.action(key);
        let before: Option<ShowKey> = self.app.show_key();
        let deed: Option<Deed> = self.handle_key(key);
        let ghost mid = *self;
        let ghost done = deed;
        self.settle(&before);
        let mut out: Vec<Deed> = Vec::new();
        match deed {
            Some(d) => {
                out.push(d);
            },
            None => {},
        }
        let moved: bool = match action {
            Some(Action::Down) => true,
            Some(Action::Up) => true,
            Some(Action::Top) => true,
            Some(Action::Bottom) => true,
            _ => false,
        };
        let probe: bool = self.app.busy.is_some() && !self.probe_pending && moved
            && self.app.modal.is_none() && self.app.editor_close_request.is_none();
        if probe {
            self.probe_pending = true;
            out.push(Deed::Probe(None));
        }
        proof {
            assert(old(self).key_handled(mid, key, done));
            assert(out@ =~= (match done {
                Some(d) => seq![d],
                None => seq![],
            }) + (if probe {
                seq![Deed::Probe(None)]
            } else {
                seq![]
            }));
        }
        out
    }
}

impl Session {
    /// What a mouse event leads to once it has moved the cursor, `before` being
    /// what was on show. While the editor runs, a click on another file has the
    /// editor asked whether it can be closed; it opens nothing.
    #[verifier::opaque]
    pub open spec fn mouse_settled(self, after: Session, before: Option<ShowKeyV>, activate: bool, deed: Option<Deed>) -> bool {
        let a = self.app;
        if a.busy is Some && (a.mode == Mode::Files || a.mode == Mode::CommitFiles) && a.modal is None {
            let probe = (a.showing() != before || activate) && !self.probe_pending
                && a.editor_close_request is None;
            let t = Session { probe_pending: self.probe_pending || probe, ..self };
            &&& deed == if probe {
                Some(Deed::Probe(None))
            } else {
                None::<Deed>
            }
            &&& after == if a.showing() != before {
                t.dirtied()
            } else {
                t
            }
        } else if activate {
            exists|u: Session| #[trigger]
                self.activated(u, deed) && after == if u.app.showing() != before {
                    u.dirtied()
                } else {
                    u
                }
        } else {
            &&& deed is None
            &&& after == if a.showing() != before {
                self.dirtied()
            } else {
                self
            }
        }
    }

    fn after_mouse(&mut self, before: &Option<ShowKey>, activate: bool) -> (r: Option<Deed>)
        ensures
            old(self).mouse_settled(*final(self), before.deep_view(), activate, r),
    {
        proof {
            reveal(Session::mouse_settled);
        }
        let at: Option<ShowKey> = self.app.show_key();
        let moved: bool = !same_key(&at, before);
        let files: bool = self.app.mode == Mode::Files || self.app.mode == Mode::CommitFiles;
        if self.app.busy.is_some() && files && self.app.modal.is_none() {
            let probe: bool = (moved || activate) && !self.probe_pending
                && self.app.editor_close_request.is_none();
            if probe {
                self.probe_pending = true;
            }
            if moved {
                self.mark_dirty();
            }
            return if probe {
                Some(Deed::Probe(None))
            } else {
                None
            };
        }
        if activate {
            let ghost s = *self;
            let deed: Option<Deed> = self.activate_selection();
            let ghost u = *self;
            let now: Option<ShowKey> = self.app.show_key();
            if !same_key(&now, before) {
                self.mark_dirty();
            }
            assert(s.activated(u, deed));
            return deed;
        }
        if moved {
            self.mark_dirty();
        }
        None
    }

    pub fn on_mouse(&mut self, kind: Mouse, y: u16) -> (r: Option<Deed>)
        ensures
            exists|mid: App, activate: bool| #[trigger]
                old(self).app.pointed(mid, kind, y, activate) && (Session {
                    app: mid,
                    ..*old(self)
                }).mouse_settled(*final(self), old(self).app.showing(), activate, r),
    {
        let before: Option<ShowKey> = self.app.show_key();
        let activate: bool = self.app.on_mouse(kind, y);
        let ghost mid = self.app;
        assert(old(self).app.pointed(mid, kind, y, activate));
        self.after_mouse(&before, activate)
    }

    // ---- the editor ---------------------------------------------------------------------------

    /// What the editor answered to being asked whether it holds unsaved text. One
    /// that does not has been told to close; one that does is asked about, if
    /// something waits for it; an answer that comes too late does nothing.
    pub fn on_probe(&mut self, next: Option<EditorThen>, unsaved: Option<bool>)
        ensures
            old(self).probed(*final(self), next, unsaved),
    {
        self.probe_pending = false;
        if self.app.busy.is_none() {
            return;
        }
        match unsaved {
            Some(false) => {
                self.app.after_edit = next;
            },
            Some(true) => match next {
                Some(n) => {
                    self.app.modal = Some(Modal::EditorClose { next: n });
                },
                None => self.app.set_status("editor has unsaved changes — stays open"),
            },
            None => match next {
                Some(_) => self.app.set_status("editor is open — close it first"),
                None => {},
            },
        }
    }

    // ---- messages of the diff pane ----------------------------------------------------------------

    /// The session after the editor or a commit is done.
    pub open spec fn unlocked(self) -> Session {
        let a = self.app;
        let b = App {
            busy: None,
            needs_reshow: true,
            need: if a.mode == Mode::Files {
                Some(Need::Entries { rebuild: false })
            } else {
                a.need
            },
            ..a
        };
        (Session { app: b, ..self }).dirtied()
    }

    fn unlock(&mut self)
        ensures
            *final(self) == old(self).unlocked(),
    {
        self.app.on_edit_done();
        self.mark_dirty();
    }

    /// The session after the diff pane said that it is there.
    #[verifier::opaque]
    pub open spec fn greeted(self, after: Session, proto: u32) -> bool {
        let a = self.app;
        &&& after == (Session {
            app: after.app,
            link: if proto != PROTO {
                Link::Foreign
            } else {
                Link::Up
            },
            ..self
        })
        &&& if proto != PROTO {
            a.tells(after.app, "preview/list version mismatch — reopen gitview"@)
        } else if a.status_msg matches Some(m) && a.now - m.1 < crate::list::STATUS_MS && m.0@
            == "connecting…"@ {
            after.app == (App { status_msg: None, ..a })
        } else {
            after.app == a
        }
    }

    fn greet(&mut self, proto: u32)
        ensures
            old(self).greeted(*final(self), proto),
    {
        proof {
            reveal(Session::greeted);
        }
        if proto != PROTO {
            self.link = Link::Foreign;
            self.app.set_status("preview/list version mismatch — reopen gitview");
            return;
        }
        self.link = Link::Up;
        let waiting: bool = match self.app.active_status() {
            Some(s) => same(s, "connecting…"),
            None => false,
        };
        if waiting {
            self.app.status_msg = None;
        }
    }

    /// The session after the editor closed: what waited for it goes on.
    #[verifier::opaque]
    pub open spec fn edited(self, after: Session, deeds: Seq<Deed>) -> bool {
        let u = self.unlocked();
        match self.app.after_edit {
            None => after == u && deeds == seq![Deed::FocusSelf],
            Some(EditorThen::QuitView) => {
                &&& after == (Session {
                    app: App { after_edit: None, should_quit: true, ..u.app },
                    ..u
                })
                &&& deeds == seq![Deed::FocusSelf]
            },
            Some(EditorThen::Commit) => {
                &&& after == (Session { app: App { after_edit: None, ..u.app }, ..u })
                &&& deeds == seq![Deed::FocusSelf, Deed::Commit]
            },
        }
    }

    fn edit_done(&mut self) -> (r: Vec<Deed>)
        ensures
            old(self).edited(*final(self), r@),
    {
        proof {
            reveal(Session::edited);
        }
        let mut out: Vec<Deed> = Vec::new();
        self.unlock();
        out.push(Deed::FocusSelf);
        assert(out@ =~= seq![Deed::FocusSelf]);
        match self.app.after_edit.take() {
            None => {},
            Some(EditorThen::QuitView) => {
                self.app.should_quit = true;
            },
            Some(EditorThen::Commit) => {
                out.push(Deed::Commit);
                assert(out@ =~= seq![Deed::FocusSelf, Deed::Commit]);
            },
        }
        out
    }

    /// The session after the notes changed. A view of notes that has none left
    /// is left. What a pane of another protocol sends is not read.
    #[verifier::opaque]
    pub open spec fn notes_came(self, after: Session, notes: Vec<NoteMeta>) -> bool {
        let a = App { notes, ..self.app };
        &&& after == (Session { app: after.app, ..self })
        &&& if self.link == Link::Foreign {
            after.app == self.app
        } else if a.mode != Mode::Notes {
            after.app == a
        } else if notes@.len() > 0 {
            a.rebuilt(after.app)
        } else {
            exists|mid: App| #[trigger] a.rebuilt(mid) && mid.notes_toggled(after.app)
        }
    }

    fn take_notes(&mut self, notes: Vec<NoteMeta>)
        ensures
            old(self).notes_came(*final(self), notes),
    {
        proof {
            reveal(Session::notes_came);
        }
        if self.link == Link::Foreign {
            return;
        }
        self.app.notes = notes;
        if self.app.mode == Mode::Notes {
            self.app.rebuild_rows();
            let ghost mid = self.app;
            if self.app.notes.len() == 0 {
                self.app.toggle_notes_view();
                assert((App { notes, ..old(self).app }).rebuilt(mid));
            }
        }
    }

    /// The session after the diff pane asked for the notes.
    #[verifier::opaque]
    pub open spec fn notes_called(self, after: Session) -> bool {
        let a = self.app;
        &&& after == (Session { app: after.app, ..self }).dirtied()
        &&& if a.mode != Mode::Notes && a.notes@.len() > 0 {
            a.notes_toggled(after.app)
        } else {
            after.app == a
        }
    }

    fn call_notes(&mut self)
        ensures
            old(self).notes_called(*final(self)),
    {
        proof {
            reveal(Session::notes_called);
        }
        if self.app.mode != Mode::Notes && self.app.notes.len() > 0 {
            self.app.toggle_notes_view();
        }
        self.mark_dirty();
    }

    /// The session after a message of the diff pane, and what is to be done.
    pub open spec fn hears(self, after: Session, msg: ToList, deeds: Seq<Deed>) -> bool {
        match msg {
            ToList::Ready { proto } => self.greeted(after, proto) && deeds.len() == 0,
            ToList::EditDone { .. } => self.edited(after, deeds),
            ToList::GitDone { ok } => if ok {
                after == self.unlocked() && deeds == seq![Deed::FocusSelf, Deed::LastCommit]
            } else {
                let u = self.unlocked();
                &&& after == (Session { app: after.app, ..u })
                &&& u.app.tells(after.app, "commit aborted"@)
                &&& deeds == seq![Deed::FocusSelf]
            },
            ToList::EditRequest => exists|deed: Option<Deed>| #[trigger]
                self.activated(after, deed) && deeds == match deed {
                    Some(d) => seq![d],
                    None => seq![],
                },
            ToList::ShowNotesView => self.notes_called(after) && deeds == seq![Deed::FocusSelf],
            ToList::Notes { notes } => self.notes_came(after, notes) && deeds.len() == 0,
        }
    }

    pub fn on_ipc(&mut self, msg: ToList) -> (r: Vec<Deed>)
        ensures
            old(self).hears(*final(self), msg, r@),
    {
        let mut out: Vec<Deed> = Vec::new();
        match msg {
            ToList::Ready { proto } => self.greet(proto),
            ToList::EditDone { .. } => {
                return self.edit_done();
            },
            ToList::GitDone { ok } => {
                self.unlock();
                out.push(Deed::FocusSelf);
                assert(out@ =~= seq![Deed::FocusSelf]);
                if ok {
                    out.push(Deed::LastCommit);
                    assert(out@ =~= seq![Deed::FocusSelf, Deed::LastCommit]);
                } else {
                    self.app.set_status("commit aborted");
                }
            },
            ToList::EditRequest => {
                let deed: Option<Deed> = self.activate_selection();
                let ghost d0 = deed;
                match deed {
                    Some(d) => {
                        out.push(d);
                    },
                    None => {},
                }
                assert(old(self).activated(*self, d0));
                assert(out@ =~= match d0 {
                    Some(d) => seq![d],
                    None => seq![],
                });
            },
            ToList::ShowNotesView => {
                self.call_notes();
                out.push(Deed::FocusSelf);
                assert(out@ =~= seq![Deed::FocusSelf]);
            },
            ToList::Notes { notes } => self.take_notes(notes),
        }
        out
    }

    // ---- each round of the loop -------------------------------------------------------------------

    /// What is left after the editor was to be asked, and on behalf of what.
    #[verifier::opaque]
    pub open spec fn probe_taken(self, after: Session, r: Option<EditorThen>) -> bool {
        let a = self.app;
        if a.busy is None {
            &&& r is None
            &&& after == (Session {
                app: App { editor_close_request: None, ..a },
                ..self
            })
        } else if self.probe_pending || a.editor_close_request is None {
            r is None && after == self
        } else {
            &&& r == a.editor_close_request
            &&& after == (Session {
                app: App { editor_close_request: None, ..a },
                probe_pending: true,
                ..self
            })
        }
    }

    /// Whether the editor is to be asked now, on behalf of what waits for it.
    pub fn take_probe(&mut self) -> (r: Option<EditorThen>)
        ensures
            old(self).probe_taken(*final(self), r),
    {
        proof {
            reveal(Session::probe_taken);
        }
        if self.app.busy.is_none() {
            self.app.editor_close_request = None;
            return None;
        }
        if self.probe_pending || self.app.editor_close_request.is_none() {
            return None;
        }
        self.probe_pending = true;
        self.app.editor_close_request.take()
    }

    /// What is left after a note on the selected file was asked for.
    #[verifier::opaque]
    pub open spec fn annotate_taken(self, after: Session, r: Option<ToPreview>) -> bool {
        let a = App { annotate_request: None, ..self.app };
        if self.app.annotate_request is None {
            r is None && after == self
        } else if !a.showable() {
            &&& r is None
            &&& after == (Session { app: after.app, ..self })
            &&& a.tells(after.app, "select a file to annotate"@)
        } else if self.link == Link::Down {
            &&& r is None
            &&& after == (Session {
                app: after.app,
                show_dirty: false,
                ..self
            })
            &&& a.tells(after.app, "preview not connected — press r to reconnect"@)
        } else {
            &&& after == (Session { app: a, show_dirty: false, ..self })
            &&& r matches Some(ToPreview::ComposeNote { show })
            &&& a.at_file() matches Some(q)
            &&& is_show(
                *show,
                a.entries@[q.0].path@,
                a.entries@[q.0].orig_path.deep_view(),
                a.scope,
                q.1 == Section::Staged,
                a.entries@[q.0].kind,
                a.shown_commit(),
            )
        }
    }

    /// The message that has the diff pane open its box on the selected file,
    /// with the diff that it needs. The diff pane takes the focus.
    pub fn take_annotate(&mut self) -> (r: Option<ToPreview>)
        ensures
            old(self).annotate_taken(*final(self), r),
    {
        proof {
            reveal(Session::annotate_taken);
        }
        self.annotate()
    }

    fn annotate(&mut self) -> (r: Option<ToPreview>)
        ensures
            ({
                let a = App { annotate_request: None, ..old(self).app };
                if old(self).app.annotate_request is None {
                    r is None && *final(self) == *old(self)
                } else if !a.showable() {
                    &&& r is None
                    &&& *final(self) == (Session { app: final(self).app, ..*old(self) })
                    &&& a.tells(final(self).app, "select a file to annotate"@)
                } else if old(self).link == Link::Down {
                    &&& r is None
                    &&& *final(self) == (Session {
                        app: final(self).app,
                        show_dirty: false,
                        ..*old(self)
                    })
                    &&& a.tells(final(self).app, "preview not connected — press r to reconnect"@)
                } else {
                    &&& *final(self) == (Session { app: a, show_dirty: false, ..*old(self) })
                    &&& r matches Some(ToPreview::ComposeNote { show })
                    &&& a.at_file() matches Some(q)
                    &&& is_show(
                        *show,
                        a.entries@[q.0].path@,
                        a.entries@[q.0].orig_path.deep_view(),
                        a.scope,
                        q.1 == Section::Staged,
                        a.entries@[q.0].kind,
                        a.shown_commit(),
                    )
                }
            }),
    {
        if self.app.annotate_request.is_none() {
            return None;
        }
        self.app.annotate_request = None;
        match self.app.current_show() {
            None => {
                self.app.set_status("select a file to annotate");
                None
            },
            Some(show) => self.call_box(show),
        }
    }

    /// The call for the box on a diff, which then needs no showing of its own.
    fn call_box(&mut self, show: ToPreview) -> (r: Option<ToPreview>)
        ensures
            if old(self).link == Link::Down {
                &&& r is None
                &&& *final(self) == (Session {
                    app: final(self).app,
                    show_dirty: false,
                    ..*old(self)
                })
                &&& old(self).app.tells(
                    final(self).app,
                    "preview not connected — press r to reconnect"@,
                )
            } else {
                &&& r matches Some(ToPreview::ComposeNote { show: s })
                &&& *s == show
                &&& *final(self) == (Session { show_dirty: false, ..*old(self) })
            },
    {
        self.show_dirty = false;
        if self.link == Link::Down {
            self.app.set_status("preview not connected — press r to reconnect");
            return None;
        }
        Some(ToPreview::ComposeNote { show: Box::new(show) })
    }

    /// What is left after a note was to be edited.
    #[verifier::opaque]
    pub open spec fn edit_note_taken(self, after: Session, r: Option<ToPreview>) -> bool {
        let a = App { edit_note_request: None, ..self.app };
        match self.app.edit_note_request {
            None => r is None && after == self,
            Some(id) => if self.link != Link::Down {
                &&& after == (Session { app: a, ..self })
                &&& r == Some(ToPreview::ComposeEditNote { id })
            } else {
                &&& r is None
                &&& after == (Session { app: after.app, ..self })
                &&& a.tells(after.app, "preview not connected — press r to reconnect"@)
            },
        }
    }

    /// The message that has the diff pane open its box on a note.
    pub fn take_edit_note(&mut self) -> (r: Option<ToPreview>)
        ensures
            old(self).edit_note_taken(*final(self), r),
    {
        proof {
            reveal(Session::edit_note_taken);
        }
        match self.app.edit_note_request.take() {
            None => None,
            Some(id) => {
                if self.link != Link::Down {
                    Some(ToPreview::ComposeEditNote { id })
                } else {
                    self.app.set_status("preview not connected — press r to reconnect");
                    None
                }
            },
        }
    }

    /// The question to put in a popup.
    pub open spec fn question(self, popup_open: bool) -> Option<Seq<char>> {
        if !self.popup_supported || self.app.modal_external || popup_open {
            None
        } else {
            match self.app.modal {
                Some(Modal::Confirm { text, .. }) => Some(text@),
                Some(Modal::EditorClose { .. }) => Some(
                    "The editor has unsaved changes. Save them? (no discards)"@,
                ),
                _ => None,
            }
        }
    }

    /// The question to ask in a window of its own, if one is to be asked so.
    pub fn popup_question(&self, popup_open: bool) -> (r: Option<String>)
        ensures
            r.deep_view() == self.question(popup_open),
    {
        if !self.popup_supported || self.app.modal_external || popup_open {
            return None;
        }
        match &self.app.modal {
            Some(Modal::Confirm { text, .. }) => Some(text.as_str().to_owned()),
            Some(Modal::EditorClose { .. }) => Some(
                "The editor has unsaved changes. Save them? (no discards)".to_owned(),
            ),
            _ => None,
        }
    }

    /// The key that an answer stands for. A window that died gave none.
    pub open spec fn answer_key(answer: Option<Seq<char>>) -> Key {
        let code = match answer {
            Some(t) => if trim(t) == "y"@ {
                KeyCode::Char('y')
            } else if trim(t) == "n"@ {
                KeyCode::Char('n')
            } else {
                KeyCode::Esc
            },
            None => KeyCode::Esc,
        };
        Key { code, mods: KeyModifiers::no_mods() }
    }

    /// The session with the diff to be shown again, where it has to be.
    #[verifier::opaque]
    pub open spec fn reshown(self) -> Session {
        if self.app.needs_reshow {
            (Session { app: App { needs_reshow: false, ..self.app }, ..self }).dirtied()
        } else {
            self
        }
    }

    fn reshow(&mut self)
        ensures
            *final(self) == old(self).reshown(),
    {
        proof {
            reveal(Session::reshown);
        }
        if self.app.needs_reshow {
            self.app.needs_reshow = false;
            self.mark_dirty();
        }
    }

    /// The session after a key was pressed for a window that has closed.
    #[verifier::opaque]
    pub open spec fn pressed(self, after: Session, key: Key) -> bool {
        let a = App { modal_external: false, ..self.app };
        exists|mid: App| #[trigger]
            a.keyed(mid, key, self.in_herdr) && after == (Session { app: mid, ..self }).reshown()
    }

    fn press(&mut self, key: Key)
        requires
            old(self).app.wf(),
        ensures
            old(self).pressed(*final(self), key),
    {
        proof {
            reveal(Session::pressed);
        }
        self.app.modal_external = false;
        self.app.on_key(key, self.in_herdr);
        let ghost mid = self.app;
        self.reshow();
        assert((App { modal_external: false, ..old(self).app }).keyed(mid, key, old(self).in_herdr));
    }

    /// The window was answered, or died: as if the key had been pressed in the
    /// pane.
    pub fn poll_popups(&mut self, answer: Option<&str>)
        requires
            old(self).app.wf(),
        ensures
            old(self).pressed(
                *final(self),
                Session::answer_key(
                    match answer {
                        Some(t) => Some(t@),
                        None => None,
                    },
                ),
            ),
    {
        let code: KeyCode = match answer {
            Some(t) => {
                let word: String = trimmed(t);
                if same(word.as_str(), "y") {
                    KeyCode::Char('y')
                } else if same(word.as_str(), "n") {
                    KeyCode::Char('n')
                } else {
                    KeyCode::Esc
                }
            },
            None => KeyCode::Esc,
        };
        let key = Key { code, mods: KeyModifiers::none() };
        self.press(key);
    }

    /// What is left after the notes were to be sent or one of them deleted.
    #[verifier::opaque]
    pub open spec fn sends_taken(self, after: Session, r: Seq<ToPreview>) -> bool {
        &&& after == (Session {
            app: App {
                send_notes_request: false,
                delete_note_request: None,
                ..self.app
            },
            ..self
        })
        &&& r == (if self.app.send_notes_request {
            seq![ToPreview::SendNotes]
        } else {
            seq![]
        }) + (match self.app.delete_note_request {
            Some(id) => seq![ToPreview::DeleteNote { id }],
            None => seq![],
        })
    }

    /// The messages that keys have asked for: send the notes, delete one.
    pub fn take_sends(&mut self) -> (r: Vec<ToPreview>)
        ensures
            old(self).sends_taken(*final(self), r@),
    {
        proof {
            reveal(Session::sends_taken);
        }
        let mut out: Vec<ToPreview> = Vec::new();
        if self.app.send_notes_request {
            self.app.send_notes_request = false;
            out.push(ToPreview::SendNotes);
        }
        match self.app.delete_note_request.take() {
            Some(id) => {
                out.push(ToPreview::DeleteNote { id });
            },
            None => {},
        }
        assert(out@ =~= (if old(self).app.send_notes_request {
            seq![ToPreview::SendNotes]
        } else {
            seq![]
        }) + (match old(self).app.delete_note_request {
            Some(id) => seq![ToPreview::DeleteNote { id }],
            None => seq![],
        }));
        out
    }

    /// Whether the selection has rested long enough to be shown.
    pub open spec fn show_due(self) -> bool {
        self.show_dirty && self.app.now - self.dirty_since >= self.show_debounce
    }

    /// What is left after the selection was to be shown.
    #[verifier::opaque]
    pub open spec fn show_taken(self, after: Session, r: Seq<ToPreview>) -> bool {
        &&& after == (Session {
            show_dirty: self.show_dirty && !self.show_due(),
            ..self
        })
        &&& ({
            let a = self.app;
            if !self.show_due() {
                r.len() == 0
            } else if a.mode == Mode::Notes {
                match a.at_note() {
                    None => r.len() == 0,
                    Some(k) => {
                        let id = a.notes@[k].id;
                        &&& r.len() == 2
                        &&& a.note_shown(id, r[0])
                        &&& r[1] == (ToPreview::FocusNote { id })
                    },
                }
            } else if a.showable() {
                &&& r.len() == 1
                &&& a.at_file() matches Some(q)
                &&& is_show(
                    r[0],
                    a.entries@[q.0].path@,
                    a.entries@[q.0].orig_path.deep_view(),
                    a.scope,
                    q.1 == Section::Staged,
                    a.entries@[q.0].kind,
                    a.shown_commit(),
                )
            } else if a.at_dir() is Some {
                r.len() == 0
            } else {
                r == seq![ToPreview::Clear]
            }
        })
    }

    /// The messages that show the selection: a note's file and the note; a
    /// file's diff; nothing for a directory; else a blank.
    pub fn take_show(&mut self) -> (r: Vec<ToPreview>)
        ensures
            old(self).show_taken(*final(self), r@),
    {
        proof {
            reveal(Session::show_taken);
        }
        let mut out: Vec<ToPreview> = Vec::new();
        if !self.show_dirty || self.app.now < self.dirty_since || self.app.now - self.dirty_since
            < self.show_debounce {
            proof {
                assert(self.show_debounce == 0 && self.app.now < self.dirty_since ==> !self.show_due());
            }
            return out;
        }
        self.show_dirty = false;
        if self.app.mode == Mode::Notes {
            match self.app.selected_note() {
                None => {},
                Some(n) => {
                    let id: u64 = n.id;
                    proof {
                        reveal(App::at_note);
                        let k = self.app.at_note()->0;
                        lemma_note_place(self.app.notes@, id, 0, k);
                    }
                    match self.app.note_show(id) {
                        Some(m) => {
                            out.push(m);
                        },
                        None => {},
                    }
                    out.push(ToPreview::FocusNote { id });
                },
            }
        } else {
            match self.app.current_show() {
                Some(m) => {
                    out.push(m);
                },
                None => {
                    if self.app.selected_dir().is_none() {
                        out.push(ToPreview::Clear);
                    }
                },
            }
        }
        out
    }

    /// What is left after the diff pane was told to quit.
    #[verifier::opaque]
    pub open spec fn quit_taken(self, after: Session, r: Option<ToPreview>) -> bool {
        &&& r == if self.app.should_quit && !self.quit_sent {
            Some(ToPreview::Quit)
        } else {
            None::<ToPreview>
        }
        &&& after == (Session {
            quit_sent: self.quit_sent || self.app.should_quit,
            ..self
        })
    }

    /// The message that ends the view, once.
    pub fn take_quit(&mut self) -> (r: Option<ToPreview>)
        ensures
            old(self).quit_taken(*final(self), r),
    {
        proof {
            reveal(Session::quit_taken);
        }
        if self.app.should_quit && !self.quit_sent {
            self.quit_sent = true;
            Some(ToPreview::Quit)
        } else {
            None
        }
    }
}

/// Notes of a pane that speaks another protocol are refused.
pub proof fn law_foreign_notes_are_refused(before: Session, mid: Session, after: Session, proto: u32, notes: Vec<NoteMeta>, said: Seq<Deed>, done: Seq<Deed>)
    requires
        proto != PROTO,
        before.hears(mid, ToList::Ready { proto }, said),
        mid.hears(after, ToList::Notes { notes }, done),
    ensures
        after == mid,
        done.len() == 0,
{
    reveal(Session::greeted);
    reveal(Session::notes_came);
}

} // verus!
