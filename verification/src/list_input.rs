//! What the keys and the mouse do in the list pane.

use vstd::prelude::*;

use crate::git::{ChangeKind, FileEntry, Scope, StageState};
use crate::keymap::{Action, Key, KeyCode};
use crate::list::{
    free_before, free_from, stepped, App, EditorThen, GitAsk, Modal, Need, PendingAction,
    DOUBLE_CLICK_MS,
};
use crate::list_rows::{holds_staged, in_section, stands_in, ListRow, ListRowV, Mode, Section};
use crate::preview::Mouse;
use crate::text::{concat3, decimal, decimal_of, deep, group_deep, has_prefix, starts_with};

verus! {

// ---- files and folders -------------------------------------------------------------------

/// What can be done with the selection.
#[derive(Debug, Clone, Copy, PartialEq, Eq, Structural)]
pub struct Ops {
    pub stage: bool,
    pub unstage: bool,
    pub discard: bool,
    /// Whether the staging key takes the selection back out.
    pub stage_unstages: bool,
}

/// The files of a section below a directory; only those with staged changes
/// where that is asked for.
pub open spec fn files_below(entries: Seq<FileEntry>, section: Section, dir: Seq<char>, staged: bool) -> Seq<Seq<char>>
    decreases entries.len(),
{
    if entries.len() == 0 {
        Seq::empty()
    } else {
        let s = files_below(entries.drop_last(), section, dir, staged);
        let e = entries.last();
        if stands_in(e.deep_view(), section) && has_prefix(e.path@, dir) && (staged ==> holds_staged(
            e.deep_view(),
        )) {
            s.push(e.path@)
        } else {
            s
        }
    }
}

fn has_staged(e: &FileEntry) -> (r: bool)
    ensures
        r == holds_staged(e.deep_view()),
{
    e.stage == StageState::Staged || e.stage == StageState::Partial
}

impl App {
    /// The section of the selection, a file or a directory, where changes of the
    /// working tree are listed.
    pub open spec fn section_at(self) -> Option<Section> {
        if self.mode != Mode::Files || self.scope != Scope::Worktree {
            None
        } else {
            match (self.at_file(), self.at_dir()) {
                (Some(q), _) => Some(q.1),
                (None, Some(d)) => Some(d.1),
                _ => None,
            }
        }
    }

    fn section_here(&self) -> (r: Option<Section>)
        ensures
            r == self.section_at(),
    {
        if self.mode != Mode::Files || self.scope != Scope::Worktree {
            return None;
        }
        match self.selected_entry() {
            Some((_, s)) => Some(s),
            None => match self.selected_dir() {
                Some((_, s)) => Some(s),
                None => None,
            },
        }
    }

    /// The files that the selection stands for: itself, or all of its section
    /// below it; only those with staged changes where that is asked for.
    pub open spec fn target_paths(self, staged: bool) -> Seq<Seq<char>> {
        match (self.at_file(), self.at_dir()) {
            (Some(q), _) => if staged && !holds_staged(self.entries@[q.0].deep_view()) {
                Seq::empty()
            } else {
                seq![self.entries@[q.0].path@]
            },
            (None, Some(d)) => files_below(self.entries@, d.1, d.0, staged),
            _ => Seq::empty(),
        }
    }

    pub fn targets(&self, staged: bool) -> (r: Vec<String>)
        ensures
            deep(r@) == self.target_paths(staged),
    {
        broadcast use group_deep;

        let mut out: Vec<String> = Vec::new();
        match self.selected_entry() {
            Some((e, _)) => {
                if !staged || has_staged(e) {
                    out.push(e.path.as_str().to_owned());
                }
                assert(deep(out@) =~= self.target_paths(staged));
                return out;
            },
            None => {},
        }
        match self.selected_dir() {
            None => {},
            Some((dir, section)) => {
                let mut i: usize = 0;
                while i < self.entries.len()
                    invariant
                        i <= self.entries@.len(),
                        deep(out@) == files_below(self.entries@.take(i as int), section, dir@, staged),
                    decreases self.entries@.len() - i,
                {
                    assert(self.entries@.take(i + 1).drop_last() =~= self.entries@.take(i as int));
                    let e: &FileEntry = &self.entries[i];
                    if in_section(e, section) && starts_with(e.path.as_str(), dir) && (!staged
                        || has_staged(e)) {
                        out.push(e.path.as_str().to_owned());
                    }
                    i += 1;
                }
            },
        }
        out
    }

    /// What can be done with the selection. Only changes of the working tree can
    /// be staged or discarded, only what is staged can be unstaged, and a
    /// conflict is left alone.
    pub open spec fn ops(self) -> Ops {
        let here = self.section_at();
        let free = here is Some && here != Some(Section::Conflicts);
        Ops {
            stage: free,
            unstage: free && self.target_paths(true).len() > 0,
            discard: free,
            stage_unstages: here == Some(Section::Staged),
        }
    }

    pub fn selection_ops(&self) -> (r: Ops)
        ensures
            r == self.ops(),
    {
        let here: Option<Section> = self.section_here();
        let staged: Vec<String> = self.targets(true);
        assert(staged@.len() == self.target_paths(true).len());
        match here {
            None => Ops { stage: false, unstage: false, discard: false, stage_unstages: false },
            Some(s) => {
                let free: bool = s != Section::Conflicts;
                Ops {
                    stage: free,
                    unstage: free && staged.len() > 0,
                    discard: free,
                    stage_unstages: s == Section::Staged,
                }
            },
        }
    }

    /// The list after something was asked for that the selection does not allow.
    /// Of a conflict it is said why.
    pub open spec fn refused(self, after: App) -> bool {
        if self.section_at() == Some(Section::Conflicts) {
            self.tells(after, "resolve the conflict in the editor first"@)
        } else {
            after == self
        }
    }

    fn refuse(&mut self)
        ensures
            old(self).refused(*final(self)),
    {
        let conflict: bool = match self.section_here() {
            Some(s) => s == Section::Conflicts,
            None => false,
        };
        if conflict {
            self.set_status("resolve the conflict in the editor first");
        }
    }

    /// The list after staging was asked for.
    pub open spec fn stage_asked(self, after: App) -> bool {
        if !self.ops().stage {
            self.refused(after)
        } else {
            &&& after == (App { git_request: after.git_request, ..self })
            &&& if self.ops().stage_unstages {
                after.git_request matches Some(GitAsk::Unstage(p)) && deep(p@) == self.target_paths(
                    true,
                )
            } else {
                after.git_request matches Some(GitAsk::Stage(p)) && deep(p@) == self.target_paths(
                    false,
                )
            }
        }
    }

    pub fn stage_toggle(&mut self)
        ensures
            old(self).stage_asked(*final(self)),
    {
        let ops: Ops = self.selection_ops();
        if !ops.stage {
            self.refuse();
            return;
        }
        let paths: Vec<String> = self.targets(ops.stage_unstages);
        self.git_request = Some(
            if ops.stage_unstages {
                GitAsk::Unstage(paths)
            } else {
                GitAsk::Stage(paths)
            },
        );
    }

    /// The list after unstaging was asked for.
    pub open spec fn unstage_asked(self, after: App) -> bool {
        if !self.ops().unstage {
            self.refused(after)
        } else {
            &&& after == (App { git_request: after.git_request, ..self })
            &&& after.git_request matches Some(GitAsk::Unstage(p))
            &&& deep(p@) == self.target_paths(true)
        }
    }

    pub fn unstage_selected(&mut self)
        ensures
            old(self).unstage_asked(*final(self)),
    {
        if !self.selection_ops().unstage {
            self.refuse();
            return;
        }
        let paths: Vec<String> = self.targets(true);
        self.git_request = Some(GitAsk::Unstage(paths));
    }

    /// The list after discarding was asked for: it asks back.
    pub open spec fn discard_asked(self, after: App) -> bool {
        if !self.ops().discard {
            self.refused(after)
        } else {
            &&& after == (App { modal: after.modal, ..self })
            &&& after.modal matches Some(Modal::Confirm { text, pending: PendingAction::Discard { paths } })
            &&& deep(paths@) == self.target_paths(false)
            &&& text@ == "discard changes to "@ + (if paths@.len() == 1 {
                paths@[0]@
            } else {
                decimal(paths@.len()) + " files"@
            }) + "? y/n"@
        }
    }

    pub fn open_discard_confirm(&mut self)
        ensures
            old(self).discard_asked(*final(self)),
    {
        if !self.selection_ops().discard {
            self.refuse();
            return;
        }
        let paths: Vec<String> = self.targets(false);
        let what: String = if paths.len() == 1 {
            paths[0].as_str().to_owned()
        } else {
            crate::text::concat2(decimal_of(paths.len() as u64).as_str(), " files")
        };
        let text: String = concat3("discard changes to ", what.as_str(), "? y/n");
        self.modal = Some(Modal::Confirm { text, pending: PendingAction::Discard { paths } });
    }

    /// What came of staging, unstaging or discarding: the files are loaded again
    /// and the diff is shown again. What went wrong is said.
    pub fn git_done(&mut self, done: Result<(), String>)
        ensures
            ({
                let p = App {
                    needs_reshow: true,
                    need: if old(self).mode == Mode::Files {
                        Some(Need::Entries { rebuild: false })
                    } else {
                        old(self).need
                    },
                    ..*old(self)
                };
                match done {
                    Ok(_) => *final(self) == p,
                    Err(e) => p.tells(*final(self), e@),
                }
            }),
    {
        self.needs_reshow = true;
        self.force_refresh();
        match done {
            Ok(_) => {},
            Err(e) => self.set_status(e.as_str()),
        }
    }

    // ---- questions ------------------------------------------------------------------------

    /// The list after a key press with a window open. Any key closes the help;
    /// a question stays until it is answered.
    #[verifier::opaque]
    pub open spec fn modal_key(self, after: App, code: KeyCode) -> bool {
        let yes = code == KeyCode::Char('y') || code == KeyCode::Enter;
        let closed = App { modal: None, ..self };
        match self.modal {
            None => after == self,
            Some(Modal::Help) => after == closed,
            Some(Modal::Confirm { text, pending }) => if yes {
                match pending {
                    PendingAction::Discard { paths } => after == (App {
                        git_request: Some(GitAsk::Discard(paths)),
                        ..closed
                    }),
                }
            } else if code == KeyCode::Char('n') || code == KeyCode::Esc {
                after == closed
            } else {
                after == self
            },
            Some(Modal::EditorClose { next }) => if yes {
                after == (App { close_request: Some((true, next)), ..closed })
            } else if code == KeyCode::Char('n') {
                after == (App { close_request: Some((false, next)), ..closed })
            } else if code == KeyCode::Esc {
                after == closed
            } else {
                after == self
            },
        }
    }

    pub fn on_modal_key(&mut self, code: KeyCode)
        ensures
            old(self).modal_key(*final(self), code),
    {
        proof {
            reveal(App::modal_key);
        }
        let yes: bool = match code {
            KeyCode::Char(c) => c == 'y',
            KeyCode::Enter => true,
            _ => false,
        };
        let no: bool = match code {
            KeyCode::Char(c) => c == 'n',
            _ => false,
        };
        let esc: bool = match code {
            KeyCode::Esc => true,
            _ => false,
        };
        match self.modal.take() {
            None => {},
            Some(Modal::Help) => {},
            Some(Modal::Confirm { text, pending }) => {
                if yes {
                    match pending {
                        PendingAction::Discard { paths } => {
                            self.git_request = Some(GitAsk::Discard(paths));
                        },
                    }
                } else if !no && !esc {
                    self.modal = Some(Modal::Confirm { text, pending });
                }
            },
            Some(Modal::EditorClose { next }) => {
                if yes {
                    self.close_request = Some((true, next));
                } else if no {
                    self.close_request = Some((false, next));
                } else if !esc {
                    self.modal = Some(Modal::EditorClose { next });
                }
            },
        }
    }

    /// The editor was told to close, or could not be.
    pub fn close_editor(&mut self, told: bool, next: EditorThen)
        ensures
            if told {
                *final(self) == (App { after_edit: Some(next), ..*old(self) })
            } else {
                old(self).tells(*final(self), "could not close the editor"@)
            },
    {
        if told {
            self.after_edit = Some(next);
        } else {
            self.set_status("could not close the editor");
        }
    }

    // ---- keys -----------------------------------------------------------------------------

    /// Why a key that needs the other pane does nothing.
    pub open spec fn no_preview_words(hosted: bool) -> Seq<char> {
        if hosted {
            "preview not connected — press r to reconnect"@
        } else {
            "editing needs the preview pane (run inside herdr)"@
        }
    }

    /// The list after a note was called for on the selected file.
    pub open spec fn note_asked(self, after: App) -> bool {
        if self.mode != Mode::Files || self.scope != Scope::Worktree {
            self.tells(after, "notes work on staged/unstaged changes only"@)
        } else {
            match self.at_file() {
                Some(q) => {
                    &&& after == (App { annotate_request: after.annotate_request, ..self })
                    &&& after.annotate_request matches Some(a)
                    &&& a.0@ == self.entries@[q.0].path@
                    &&& a.1 == (q.1 == Section::Staged)
                },
                None => self.tells(after, "select a file to annotate"@),
            }
        }
    }

    /// The list after an action. `hosted` says whether a host runs the panes.
    #[verifier::opaque]
    pub open spec fn acts(self, after: App, action: Action, hosted: bool) -> bool {
        let rows = deep(self.rows@);
        match action {
            Action::Down => after == (App {
                cursor: stepped(rows, self.cursor as int, true) as usize,
                ..self
            }),
            Action::Up => after == (App {
                cursor: stepped(rows, self.cursor as int, false) as usize,
                ..self
            }),
            Action::Top => after == (App {
                cursor: if free_from(rows, 0) < rows.len() {
                    free_from(rows, 0) as usize
                } else {
                    self.cursor
                },
                ..self
            }),
            Action::Bottom => after == (App {
                cursor: if free_before(rows, rows.len() as int) >= 0 {
                    free_before(rows, rows.len() as int) as usize
                } else {
                    self.cursor
                },
                ..self
            }),
            Action::ToggleScope => self.scope_toggled(after),
            Action::ToggleCached => self.tells(
                after,
                "staged/unstaged now follow the list sections"@,
            ),
            Action::Refresh => after == (App {
                need: if self.mode == Mode::Files {
                    Some(Need::Entries { rebuild: false })
                } else {
                    self.need
                },
                ..self
            }),
            Action::Help => after == (App { modal: Some(Modal::Help), ..self }),
            Action::Log => self.log_toggled(after),
            Action::NotesView => self.notes_toggled(after),
            Action::Delete => if self.mode == Mode::Notes {
                after == (App {
                    delete_note_request: match self.at_note() {
                        Some(k) => Some(self.notes@[k].id),
                        None => None,
                    },
                    ..self
                })
            } else {
                after == self
            },
            Action::Annotate => self.note_asked(after),
            Action::SendNotes => if self.notes@.len() == 0 {
                self.tells(after, "no notes yet — a annotates a file, v+a lines in the diff"@)
            } else {
                after == (App { send_notes_request: true, ..self })
            },
            Action::Quit => self.backed_out(after),
            Action::Stage => self.stage_asked(after),
            Action::Unstage => self.unstage_asked(after),
            Action::Discard => self.discard_asked(after),
            Action::Edit => if self.at_dir() is Some {
                self.dir_toggled(after)
            } else {
                self.tells(after, App::no_preview_words(hosted))
            },
            Action::Commit => self.tells(after, App::no_preview_words(hosted)),
            _ => after == self,
        }
    }

    fn annotate(&mut self)
        ensures
            old(self).note_asked(*final(self)),
    {
        if self.mode != Mode::Files || self.scope != Scope::Worktree {
            self.set_status("notes work on staged/unstaged changes only");
            return;
        }
        let found: Option<(String, bool)> = match self.selected_entry() {
            Some((e, section)) => Some((e.path.as_str().to_owned(), section.cached())),
            None => None,
        };
        match found {
            Some(a) => {
                self.annotate_request = Some(a);
            },
            None => self.set_status("select a file to annotate"),
        }
    }

    fn no_preview(&mut self, hosted: bool)
        ensures
            old(self).tells(*final(self), App::no_preview_words(hosted)),
    {
        if hosted {
            self.set_status("preview not connected — press r to reconnect");
        } else {
            self.set_status("editing needs the preview pane (run inside herdr)");
        }
    }

    fn act(&mut self, action: Action, hosted: bool)
        ensures
            old(self).acts(*final(self), action, hosted),
    {
        proof {
            reveal(App::acts);
            let rows = deep(self.rows@);
            lemma_free_from(rows, 0);
            lemma_free_before(rows, rows.len() as int);
        }
        match action {
            Action::Down => self.move_cursor(true),
            Action::Up => self.move_cursor(false),
            Action::Top => self.cursor_to_edge(true),
            Action::Bottom => self.cursor_to_edge(false),
            Action::ToggleScope => self.toggle_scope(),
            Action::ToggleCached => self.set_status("staged/unstaged now follow the list sections"),
            Action::Refresh => self.force_refresh(),
            Action::Help => {
                self.modal = Some(Modal::Help);
            },
            Action::Log => self.toggle_log(),
            Action::NotesView => self.toggle_notes_view(),
            Action::Delete => {
                if self.mode == Mode::Notes {
                    self.delete_note_request = match self.selected_note() {
                        Some(n) => Some(n.id),
                        None => None,
                    };
                }
            },
            Action::Annotate => self.annotate(),
            Action::SendNotes => {
                if self.notes.len() == 0 {
                    self.set_status("no notes yet — a annotates a file, v+a lines in the diff");
                } else {
                    self.send_notes_request = true;
                }
            },
            Action::Quit => self.back_or_quit(),
            Action::Stage => self.stage_toggle(),
            Action::Unstage => self.unstage_selected(),
            Action::Discard => self.open_discard_confirm(),
            Action::Edit => {
                if !self.toggle_selected_dir() {
                    self.no_preview(hosted);
                }
            },
            Action::Commit => self.no_preview(hosted),
            _ => {},
        }
    }

    /// The list after a key press. An open window takes every key. While an
    /// editor runs, what needs its terminal asks for it to be closed first.
    #[verifier::opaque]
    pub open spec fn keyed(self, after: App, ev: Key, hosted: bool) -> bool {
        if self.modal is Some {
            self.modal_key(after, ev.code)
        } else {
            match self.keys.action_of(ev) {
                None => after == self,
                Some(action) => if self.busy is Some && action == Action::Quit && self.mode
                    == Mode::Files {
                    after == (App { editor_close_request: Some(EditorThen::QuitView), ..self })
                } else if self.busy is Some && action == Action::Commit {
                    after == (App { editor_close_request: Some(EditorThen::Commit), ..self })
                } else if self.busy is Some && action == Action::Edit {
                    after == self
                } else {
                    self.acts(after, action, hosted)
                },
            }
        }
    }

    pub fn on_key(&mut self, ev: Key, hosted: bool)
        requires
            old(self).wf(),
        ensures
            old(self).keyed(*final(self), ev, hosted),
    {
        proof {
            reveal(App::keyed);
        }
        if self.modal.is_some() {
            self.on_modal_key(ev.code);
            return;
        }
        let action: Action = match self.keys.action(ev) {
            None => {
                return;
            },
            Some(a) => a,
        };
        if self.busy.is_some() {
            if action == Action::Quit && self.mode == Mode::Files {
                self.editor_close_request = Some(EditorThen::QuitView);
                return;
            }
            if action == Action::Commit {
                self.editor_close_request = Some(EditorThen::Commit);
                return;
            }
            if action == Action::Edit {
                return;
            }
        }
        self.act(action, hosted);
    }

    // ---- the mouse ------------------------------------------------------------------------

    /// The row drawn at a line of the list, counted from the row `i`.
    pub open spec fn row_drawn(rows: Seq<ListRowV>, i: int, y: int) -> Option<int>
        decreases rows.len() - i,
    {
        if i < 0 || i >= rows.len() {
            None
        } else if y < rows[i].lines() {
            Some(i)
        } else {
            App::row_drawn(rows, i + 1, y - rows[i].lines())
        }
    }

    /// The row drawn at a line below the header.
    pub fn row_at(&self, offset_y: u16) -> (r: Option<usize>)
        ensures
            match r {
                Some(k) => App::row_drawn(deep(self.rows@), self.list_offset as int, offset_y as int)
                    == Some(k as int) && k < self.rows@.len(),
                None => App::row_drawn(deep(self.rows@), self.list_offset as int, offset_y as int) is None,
            },
    {
        let ghost rows = deep(self.rows@);
        let mut left: usize = offset_y as usize;
        let mut i: usize = self.list_offset;
        while i < self.rows.len()
            invariant
                rows == deep(self.rows@),
                App::row_drawn(rows, self.list_offset as int, offset_y as int) == App::row_drawn(
                    rows,
                    i as int,
                    left as int,
                ),
            decreases self.rows@.len() - i,
        {
            assert(rows[i as int] == self.rows@[i as int].deep_view());
            let h: usize = self.rows[i].height();
            if left < h {
                return Some(i);
            }
            left -= h;
            i += 1;
        }
        None
    }

    /// The list after a click on a row, and whether the row is to be opened. A
    /// directory opens or closes; any other row is opened by a double click.
    #[verifier::opaque]
    pub open spec fn clicked(self, after: App, k: int, activate: bool) -> bool {
        let rows = deep(self.rows@);
        if !(0 <= k < rows.len()) || !rows[k].can_hold_cursor() {
            after == self && !activate
        } else if rows[k] is Dir {
            &&& !activate
            &&& (App { cursor: k as usize, last_click: None, ..self }).dir_toggled(after)
        } else {
            &&& after == (App {
                cursor: k as usize,
                last_click: Some((k as usize, self.now)),
                ..self
            })
            &&& activate == (self.last_click matches Some(c) && c.0 == k && self.now - c.1
                < DOUBLE_CLICK_MS)
        }
    }

    fn click(&mut self, k: usize) -> (r: bool)
        ensures
            old(self).clicked(*final(self), k as int, r),
    {
        proof {
            reveal(App::clicked);
        }
        if k >= self.rows.len() {
            return false;
        }
        assert(deep(self.rows@)[k as int] == self.rows@[k as int].deep_view());
        if !self.rows[k].selectable() {
            return false;
        }
        let dir: bool = match &self.rows[k] {
            ListRow::Dir { .. } => true,
            _ => false,
        };
        self.cursor = k;
        if dir {
            self.last_click = None;
            let _ = self.toggle_selected_dir();
            return false;
        }
        let double: bool = match self.last_click {
            Some((i, at)) => i == k && (self.now < at || self.now - at < DOUBLE_CLICK_MS),
            None => false,
        };
        self.last_click = Some((k, self.now));
        double
    }

    /// What a mouse event does to the list, and whether it opens the row.
    #[verifier::opaque]
    pub open spec fn pointed(self, after: App, kind: Mouse, y: u16, activate: bool) -> bool {
        let rows = deep(self.rows@);
        if self.modal is Some {
            after == self && !activate
        } else {
            match kind {
                Mouse::ScrollDown => !activate && after == (App {
                    cursor: stepped(rows, self.cursor as int, true) as usize,
                    ..self
                }),
                Mouse::ScrollUp => !activate && after == (App {
                    cursor: stepped(rows, self.cursor as int, false) as usize,
                    ..self
                }),
                Mouse::Down if y >= 1 => match App::row_drawn(rows, self.list_offset as int, y - 1) {
                    Some(k) => self.clicked(after, k, activate),
                    None => after == self && !activate,
                },
                _ => after == self && !activate,
            }
        }
    }

    /// A mouse event at a line of the pane, the first of which is the header.
    /// True if the row there is to be opened.
    pub fn on_mouse(&mut self, kind: Mouse, y: u16) -> (r: bool)
        ensures
            old(self).pointed(*final(self), kind, y, r),
    {
        proof {
            reveal(App::pointed);
        }
        if self.modal.is_some() {
            return false;
        }
        match kind {
            Mouse::ScrollDown => {
                self.move_cursor(true);
                false
            },
            Mouse::ScrollUp => {
                self.move_cursor(false);
                false
            },
            Mouse::Down => {
                if y >= 1 {
                    match self.row_at(y - 1) {
                        Some(k) => self.click(k),
                        None => false,
                    }
                } else {
                    false
                }
            },
            _ => false,
        }
    }
}

// ---- laws --------------------------------------------------------------------------------

/// Wherever the cursor is put, it comes to rest on a row that can hold it, if
/// there is one.
pub proof fn law_cursor_rests_on_a_row(rows: Seq<ListRowV>, cursor: int, free: int)
    requires
        0 <= cursor,
        0 <= free < rows.len(),
        rows[free].can_hold_cursor(),
    ensures
        0 <= crate::list::snapped(rows, cursor) < rows.len(),
        rows[crate::list::snapped(rows, cursor)].can_hold_cursor(),
{
    let start = if cursor < rows.len() {
        cursor
    } else {
        rows.len() - 1
    };
    lemma_free_from(rows, start);
    lemma_free_before(rows, start);
    if free >= start {
        lemma_free_from_found(rows, start, free);
    } else {
        lemma_free_before_found(rows, start, free);
    }
}

/// Moving the cursor never leaves the rows that can hold it.
pub proof fn law_moving_skips_headings(rows: Seq<ListRowV>, cursor: int, down: bool)
    requires
        0 <= cursor < rows.len(),
        rows[cursor].can_hold_cursor(),
    ensures
        0 <= stepped(rows, cursor, down) < rows.len(),
        rows[stepped(rows, cursor, down)].can_hold_cursor(),
        down ==> stepped(rows, cursor, down) >= cursor,
        !down ==> stepped(rows, cursor, down) <= cursor,
{
    lemma_free_from(rows, cursor + 1);
    lemma_free_before(rows, cursor);
}

proof fn lemma_free_from(rows: Seq<ListRowV>, i: int)
    requires
        0 <= i <= rows.len(),
    ensures
        i <= free_from(rows, i) <= rows.len(),
        free_from(rows, i) < rows.len() ==> rows[free_from(rows, i)].can_hold_cursor(),
    decreases rows.len() - i,
{
    if i < rows.len() {
        lemma_free_from(rows, i + 1);
    }
}

proof fn lemma_free_from_found(rows: Seq<ListRowV>, i: int, free: int)
    requires
        0 <= i <= free < rows.len(),
        rows[free].can_hold_cursor(),
    ensures
        free_from(rows, i) < rows.len(),
    decreases free - i,
{
    if i < free {
        lemma_free_from_found(rows, i + 1, free);
    }
}

proof fn lemma_free_before(rows: Seq<ListRowV>, i: int)
    requires
        0 <= i <= rows.len(),
    ensures
        -1 <= free_before(rows, i) < rows.len(),
        free_before(rows, i) >= 0 ==> free_before(rows, i) < i && rows[free_before(
            rows,
            i,
        )].can_hold_cursor(),
    decreases i,
{
    if i > 0 {
        lemma_free_before(rows, i - 1);
    }
}

proof fn lemma_free_before_found(rows: Seq<ListRowV>, i: int, free: int)
    requires
        0 <= free < i <= rows.len(),
        rows[free].can_hold_cursor(),
    ensures
        free_before(rows, i) >= 0,
    decreases i,
{
    if i - 1 > free {
        lemma_free_before_found(rows, i - 1, free);
    }
}

/// What is done with a folder is done with the files of its section below it,
/// and never with a file in conflict.
pub proof fn law_folders_keep_to_their_section(entries: Seq<FileEntry>, section: Section, dir: Seq<char>, staged: bool, i: int)
    requires
        0 <= i < files_below(entries, section, dir, staged).len(),
    ensures
        exists|k: int|
            0 <= k < entries.len() && (#[trigger] entries[k]).path@ == files_below(
                entries,
                section,
                dir,
                staged,
            )[i] && stands_in(entries[k].deep_view(), section) && has_prefix(entries[k].path@, dir)
                && (section == Section::Staged || section == Section::Changes ==> entries[k].kind
                != ChangeKind::Conflicted),
    decreases entries.len(),
{
    let init = entries.drop_last();
    let s = files_below(init, section, dir, staged);
    if i < s.len() {
        law_folders_keep_to_their_section(init, section, dir, staged, i);
        let k = choose|k: int|
            0 <= k < init.len() && (#[trigger] init[k]).path@ == s[i] && stands_in(
                init[k].deep_view(),
                section,
            ) && has_prefix(init[k].path@, dir) && (section == Section::Staged || section
                == Section::Changes ==> init[k].kind != ChangeKind::Conflicted);
        assert(entries[k] == init[k]);
    } else {
        assert(entries[entries.len() - 1] == entries.last());
    }
}

} // verus!
