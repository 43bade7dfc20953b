//! The state of the list pane, and what its keys do.
//!
//! It holds no terminal and runs no command. What it needs loaded or done is
//! left in its request fields; the outcome is handed back.

use vstd::prelude::*;

use crate::config::{Config, ScopePref};
use crate::git::{CommitInfo, FileEntry, Scope};
use crate::git_repo::Repo;
use crate::ipc::NoteMeta;
use crate::keymap::Keymap;
use crate::list_rows::{
    closed_models, commit_rows, file_rows, note_files, note_rows, rows_of_commits, rows_of_files,
    rows_of_notes, ListRow, ListRowV, Mode, Section,
};
use crate::path::{is_same_file, same_file};
use crate::text::{deep, same};

verus! {

/// How long a message stays in the footer, in milliseconds.
pub const STATUS_MS: u64 = 3000;

/// Two clicks within this many milliseconds are one double click.
pub const DOUBLE_CLICK_MS: u64 = 400;

/// How many commits the history shows.
pub const LOG_LIMIT: usize = 200;

/// What to do once the editor is closed.
#[derive(Debug, Clone, Copy, PartialEq, Eq, Structural)]
pub enum EditorThen {
    QuitView,
    Commit,
}

/// What a confirmed question should do.
#[derive(Debug)]
pub enum PendingAction {
    Discard { paths: Vec<String> },
}

/// A window that takes all keys while it is open.
#[derive(Debug)]
pub enum Modal {
    Help,
    /// Yes or no.
    Confirm { text: String, pending: PendingAction },
    /// The editor holds unsaved text and has to be closed.
    EditorClose { next: EditorThen },
}

/// What has to be loaded.
#[derive(Debug)]
pub enum Need {
    /// The changed files; with `rebuild`, the rows are made anew whatever comes.
    Entries { rebuild: bool },
    /// The history, to go to it.
    Log,
    /// The history, after its filter changed.
    Filtered,
    /// The base, to compare with it.
    ScopeBase,
    /// The base, to filter the history by it.
    LogBase,
    /// The files of the commit at the cursor.
    CommitFiles,
}

/// What git should do with files.
#[derive(Debug)]
pub enum GitAsk {
    Stage(Vec<String>),
    Unstage(Vec<String>),
    Discard(Vec<String>),
}

/// What the cursor is on, in a form that outlives the rows.
#[derive(Debug)]
pub enum CursorId {
    Entry(String, Section),
    Dir(String, Section),
}

pub struct App {
    pub repo: Repo,
    pub cfg: Config,
    pub keys: Keymap,
    pub mode: Mode,
    pub scope: Scope,
    pub entries: Vec<FileEntry>,
    pub commits: Vec<CommitInfo>,
    /// Whether the history holds only what the branch added to its base.
    pub log_branch_only: bool,
    /// The commit whose files are shown.
    pub commit: Option<CommitInfo>,
    pub rows: Vec<ListRow>,
    pub cursor: usize,
    /// The first row in view.
    pub list_offset: usize,
    pub base: String,
    pub merge_base: Option<String>,
    /// How many commits the branch added to its base.
    pub branch_commits: Option<u32>,
    /// None where no branch is checked out.
    pub branch: Option<String>,
    /// A message for the footer, and when it came.
    pub status_msg: Option<(String, u64)>,
    /// The run loop's clock, in milliseconds.
    pub now: u64,
    /// Why the files could not be listed.
    pub load_error: Option<String>,
    pub should_quit: bool,
    pub modal: Option<Modal>,
    /// What the other pane's terminal is busy with.
    pub busy: Option<String>,
    /// The diff on screen changed, though the selection did not.
    pub needs_reshow: bool,
    pub after_edit: Option<EditorThen>,
    pub editor_close_request: Option<EditorThen>,
    /// Close the editor, saving or not, and go on.
    pub close_request: Option<(bool, EditorThen)>,
    pub last_click: Option<(usize, u64)>,
    pub collapsed: Vec<(Section, String)>,
    /// The question is asked in a window of its own.
    pub modal_external: bool,
    pub notes: Vec<NoteMeta>,
    /// Where the notes were called from.
    pub notes_return: Option<Mode>,
    pub annotate_request: Option<(String, bool)>,
    pub send_notes_request: bool,
    pub edit_note_request: Option<u64>,
    pub delete_note_request: Option<u64>,
    pub need: Option<Need>,
    pub git_request: Option<GitAsk>,
}

// ---- places in the rows ------------------------------------------------------------------

/// The first row from `i` on that can hold the cursor, or the number of rows.
pub open spec fn free_from(rows: Seq<ListRowV>, i: int) -> int
    decreases rows.len() - i,
{
    if i < 0 || i >= rows.len() || rows[i].can_hold_cursor() {
        i
    } else {
        free_from(rows, i + 1)
    }
}

/// The last row before `i` that can hold the cursor, or -1.
pub open spec fn free_before(rows: Seq<ListRowV>, i: int) -> int
    decreases i,
{
    if i <= 0 || i > rows.len() {
        -1
    } else if rows[i - 1].can_hold_cursor() {
        i - 1
    } else {
        free_before(rows, i - 1)
    }
}

/// The nearest row that can hold the cursor, at its place or below it, else
/// above it.
pub open spec fn snapped(rows: Seq<ListRowV>, cursor: int) -> int {
    if rows.len() == 0 {
        0
    } else {
        let start = if cursor < rows.len() {
            cursor
        } else {
            rows.len() - 1
        };
        if free_from(rows, start) < rows.len() {
            free_from(rows, start)
        } else if free_before(rows, start) >= 0 {
            free_before(rows, start)
        } else {
            0
        }
    }
}

/// The next row in a direction that can hold the cursor; the same one at an
/// end.
pub open spec fn stepped(rows: Seq<ListRowV>, cursor: int, down: bool) -> int {
    if down {
        if cursor < rows.len() && free_from(rows, cursor + 1) < rows.len() {
            free_from(rows, cursor + 1)
        } else {
            cursor
        }
    } else if free_before(rows, cursor) >= 0 {
        free_before(rows, cursor)
    } else {
        cursor
    }
}

fn find_free_from(rows: &Vec<ListRow>, from: usize) -> (r: usize)
    requires
        from <= rows@.len(),
    ensures
        r == free_from(deep(rows@), from as int),
        from <= r <= rows@.len(),
{
    let ghost all = deep(rows@);
    let mut i: usize = from;
    while i < rows.len()
        invariant
            from <= i <= rows@.len(),
            all == deep(rows@),
            free_from(all, from as int) == free_from(all, i as int),
        decreases rows@.len() - i,
    {
        assert(all[i as int] == rows@[i as int].deep_view());
        if rows[i].selectable() {
            return i;
        }
        i += 1;
    }
    i
}

fn find_free_before(rows: &Vec<ListRow>, from: usize) -> (r: Option<usize>)
    requires
        from <= rows@.len(),
    ensures
        match r {
            Some(k) => k == free_before(deep(rows@), from as int) && k < from,
            None => free_before(deep(rows@), from as int) == -1,
        },
{
    let ghost all = deep(rows@);
    let mut i: usize = from;
    while i > 0
        invariant
            i <= from <= rows@.len(),
            all == deep(rows@),
            free_before(all, from as int) == free_before(all, i as int),
        decreases i,
    {
        assert(all[i - 1] == rows@[i - 1].deep_view());
        if rows[i - 1].selectable() {
            return Some(i - 1);
        }
        i -= 1;
    }
    None
}

/// Where a directory's row is, or the number of rows.
pub open spec fn dir_row(rows: Seq<ListRowV>, path: Seq<char>, section: Section, i: int) -> int
    decreases rows.len() - i,
{
    if i < 0 || i >= rows.len() || (rows[i] matches ListRowV::Dir { path: p, section: s, .. } && p
        == path && s == section) {
        i
    } else {
        dir_row(rows, path, section, i + 1)
    }
}

/// The paths of files.
pub open spec fn paths(entries: Seq<FileEntry>) -> Seq<Seq<char>> {
    Seq::new(entries.len(), |i: int| entries[i].path@)
}

/// Whether a row is a file's, in a section or in any.
pub open spec fn is_file_row(row: ListRowV, files: Seq<Seq<char>>, path: Seq<char>, section: Option<Section>) -> bool {
    row matches ListRowV::Entry { idx, section: s, .. } && 0 <= idx < files.len() && same_file(
        files[idx],
        path,
    ) && (section is None || section == Some(s))
}

/// Where a file's row is, or the number of rows.
pub open spec fn file_row(rows: Seq<ListRowV>, files: Seq<Seq<char>>, path: Seq<char>, section: Option<Section>, i: int) -> int
    decreases rows.len() - i,
{
    if i < 0 || i >= rows.len() || is_file_row(rows[i], files, path, section) {
        i
    } else {
        file_row(rows, files, path, section, i + 1)
    }
}

pub(crate) fn find_dir_row(rows: &Vec<ListRow>, path: &str, section: Section) -> (r: usize)
    ensures
        r == dir_row(deep(rows@), path@, section, 0),
        r <= rows@.len(),
{
    let ghost all = deep(rows@);
    let mut i: usize = 0;
    while i < rows.len()
        invariant
            i <= rows@.len(),
            all == deep(rows@),
            dir_row(all, path@, section, 0) == dir_row(all, path@, section, i as int),
        decreases rows@.len() - i,
    {
        assert(all[i as int] == rows@[i as int].deep_view());
        match &rows[i] {
            ListRow::Dir { path: p, section: s, .. } => {
                if *s == section && same(p.as_str(), path) {
                    return i;
                }
            },
            _ => {},
        }
        i += 1;
    }
    i
}

fn find_file_row(rows: &Vec<ListRow>, entries: &Vec<FileEntry>, path: &str, section: Option<Section>) -> (r: usize)
    ensures
        r == file_row(deep(rows@), paths(entries@), path@, section, 0),
        r <= rows@.len(),
{
    let ghost all = deep(rows@);
    let ghost files = paths(entries@);
    let mut i: usize = 0;
    while i < rows.len()
        invariant
            i <= rows@.len(),
            all == deep(rows@),
            files == paths(entries@),
            file_row(all, files, path@, section, 0) == file_row(all, files, path@, section, i as int),
        decreases rows@.len() - i,
    {
        assert(all[i as int] == rows@[i as int].deep_view());
        match &rows[i] {
            ListRow::Entry { idx, section: s, .. } => {
                let k: usize = *idx;
                let here: bool = match section {
                    Some(w) => w == *s,
                    None => true,
                };
                if k < entries.len() && here && is_same_file(entries[k].path.as_str(), path) {
                    return i;
                }
            },
            _ => {},
        }
        i += 1;
    }
    i
}

#[verifier::ext_equal]
pub enum CursorIdV {
    Entry(Seq<char>, Section),
    Dir(Seq<char>, Section),
}

impl DeepView for CursorId {
    type V = CursorIdV;

    open spec fn deep_view(&self) -> CursorIdV {
        match *self {
            CursorId::Entry(p, s) => CursorIdV::Entry(p@, s),
            CursorId::Dir(p, s) => CursorIdV::Dir(p@, s),
        }
    }
}

/// Where the cursor goes to stay on what it was on: a file in its section, else
/// the file in another one; a directory.
pub open spec fn kept_at(rows: Seq<ListRowV>, files: Seq<Seq<char>>, keep: Option<CursorIdV>, cursor: int) -> int {
    match keep {
        Some(CursorIdV::Entry(path, section)) => {
            let a = file_row(rows, files, path, Some(section), 0);
            let b = file_row(rows, files, path, None, 0);
            if a < rows.len() {
                a
            } else if b < rows.len() {
                b
            } else {
                snapped(rows, cursor)
            }
        },
        Some(CursorIdV::Dir(path, section)) => {
            let a = dir_row(rows, path, section, 0);
            if a < rows.len() {
                a
            } else {
                snapped(rows, cursor)
            }
        },
        None => snapped(rows, cursor),
    }
}

impl App {
    pub open spec fn wf(self) -> bool {
        self.keys.wf()
    }

    /// The rows of what is shown.
    #[verifier::opaque]
    pub open spec fn derived(self) -> Seq<ListRowV> {
        match self.mode {
            Mode::Log => commit_rows(self.commits@.len()),
            Mode::Notes => note_rows(note_files(self.notes@), self.notes@.len()),
            Mode::CommitFiles => file_rows(
                deep(self.entries@),
                false,
                closed_models(self.collapsed@),
            ),
            Mode::Files => file_rows(
                deep(self.entries@),
                self.scope == Scope::Worktree,
                closed_models(self.collapsed@),
            ),
        }
    }

    /// The list with its rows made anew, and the cursor on one that can hold
    /// it.
    pub open spec fn rebuilt(self, after: App) -> bool {
        &&& after == (App { rows: after.rows, cursor: after.cursor, ..self })
        &&& deep(after.rows@) == self.derived()
        &&& after.cursor == snapped(self.derived(), self.cursor as int)
    }

    pub fn rebuild_rows(&mut self)
        ensures
            old(self).rebuilt(*final(self)),
    {
        proof {
            reveal(App::derived);
        }
        let rows: Vec<ListRow> = match self.mode {
            Mode::Log => rows_of_commits(self.commits.len()),
            Mode::Notes => rows_of_notes(&self.notes),
            Mode::CommitFiles => rows_of_files(&self.entries, false, &self.collapsed),
            Mode::Files => rows_of_files(&self.entries, self.scope == Scope::Worktree, &self.collapsed),
        };
        self.rows = rows;
        self.snap_cursor();
    }

    /// Bring the cursor to a row that can hold it.
    pub fn snap_cursor(&mut self)
        ensures
            *final(self) == (App { cursor: final(self).cursor, ..*old(self) }),
            final(self).cursor == snapped(deep(old(self).rows@), old(self).cursor as int),
    {
        assert(deep(self.rows@).len() == self.rows@.len());
        if self.rows.len() == 0 {
            self.cursor = 0;
            return;
        }
        let start: usize = if self.cursor < self.rows.len() {
            self.cursor
        } else {
            self.rows.len() - 1
        };
        let after: usize = find_free_from(&self.rows, start);
        if after < self.rows.len() {
            self.cursor = after;
            return;
        }
        self.cursor = match find_free_before(&self.rows, start) {
            Some(k) => k,
            None => 0,
        };
    }

    pub(crate) fn move_cursor(&mut self, down: bool)
        ensures
            *final(self) == (App { cursor: final(self).cursor, ..*old(self) }),
            final(self).cursor == stepped(deep(old(self).rows@), old(self).cursor as int, down),
    {
        assert(deep(self.rows@).len() == self.rows@.len());
        if down {
            if self.cursor < self.rows.len() {
                let k: usize = find_free_from(&self.rows, self.cursor + 1);
                if k < self.rows.len() {
                    self.cursor = k;
                }
            }
        } else if self.cursor <= self.rows.len() {
            match find_free_before(&self.rows, self.cursor) {
                Some(k) => {
                    self.cursor = k;
                },
                None => {},
            }
        }
    }

    pub(crate) fn cursor_to_edge(&mut self, top: bool)
        ensures
            *final(self) == (App { cursor: final(self).cursor, ..*old(self) }),
            ({
                let rows = deep(old(self).rows@);
                let to = if top {
                    free_from(rows, 0)
                } else {
                    free_before(rows, rows.len() as int)
                };
                final(self).cursor == if 0 <= to < rows.len() {
                    to
                } else {
                    old(self).cursor as int
                }
            }),
    {
        assert(deep(self.rows@).len() == self.rows@.len());
        if top {
            let k: usize = find_free_from(&self.rows, 0);
            if k < self.rows.len() {
                self.cursor = k;
            }
        } else {
            match find_free_before(&self.rows, self.rows.len()) {
                Some(k) => {
                    self.cursor = k;
                },
                None => {},
            }
        }
    }

    // ---- what is selected -------------------------------------------------------------

    /// The place of the selected file, and its section.
    #[verifier::opaque]
    pub open spec fn at_file(self) -> Option<(int, Section)> {
        let rows = deep(self.rows@);
        if self.cursor < rows.len() && rows[self.cursor as int] is Entry {
            let k = rows[self.cursor as int]->Entry_idx;
            if 0 <= k < self.entries@.len() {
                Some((k, rows[self.cursor as int]->Entry_section))
            } else {
                None
            }
        } else {
            None
        }
    }

    /// The selected directory, and its section.
    #[verifier::opaque]
    pub open spec fn at_dir(self) -> Option<(Seq<char>, Section)> {
        let rows = deep(self.rows@);
        if self.cursor < rows.len() && rows[self.cursor as int] is Dir {
            Some((rows[self.cursor as int]->Dir_path, rows[self.cursor as int]->Dir_section))
        } else {
            None
        }
    }

    #[verifier::opaque]
    pub open spec fn at_commit(self) -> Option<int> {
        let rows = deep(self.rows@);
        if self.cursor < rows.len() && rows[self.cursor as int] is Commit && 0
            <= rows[self.cursor as int]->Commit_0 < self.commits@.len() {
            Some(rows[self.cursor as int]->Commit_0)
        } else {
            None
        }
    }

    #[verifier::opaque]
    pub open spec fn at_note(self) -> Option<int> {
        let rows = deep(self.rows@);
        if self.cursor < rows.len() && rows[self.cursor as int] is Note && 0
            <= rows[self.cursor as int]->Note_0 < self.notes@.len() {
            Some(rows[self.cursor as int]->Note_0)
        } else {
            None
        }
    }

    pub fn selected_entry(&self) -> (r: Option<(&FileEntry, Section)>)
        ensures
            match r {
                Some(p) => self.at_file() matches Some(q) && *p.0 == self.entries@[q.0] && p.1 == q.1,
                None => self.at_file() is None,
            },
    {
        proof {
            reveal(App::at_file);
        }
        if self.cursor >= self.rows.len() {
            return None;
        }
        assert(deep(self.rows@)[self.cursor as int] == self.rows@[self.cursor as int].deep_view());
        match &self.rows[self.cursor] {
            ListRow::Entry { idx, section, .. } => {
                let k: usize = *idx;
                if k < self.entries.len() {
                    Some((&self.entries[k], *section))
                } else {
                    None
                }
            },
            _ => None,
        }
    }

    pub fn selected_dir(&self) -> (r: Option<(&str, Section)>)
        ensures
            match r {
                Some(p) => self.at_dir() == Some((p.0@, p.1)),
                None => self.at_dir() is None,
            },
    {
        proof {
            reveal(App::at_dir);
        }
        if self.cursor >= self.rows.len() {
            return None;
        }
        assert(deep(self.rows@)[self.cursor as int] == self.rows@[self.cursor as int].deep_view());
        match &self.rows[self.cursor] {
            ListRow::Dir { path, section, .. } => Some((path.as_str(), *section)),
            _ => None,
        }
    }

    pub fn selected_commit(&self) -> (r: Option<&CommitInfo>)
        ensures
            match r {
                Some(c) => self.at_commit() matches Some(k) && *c == self.commits@[k],
                None => self.at_commit() is None,
            },
    {
        proof {
            reveal(App::at_commit);
        }
        if self.cursor >= self.rows.len() {
            return None;
        }
        assert(deep(self.rows@)[self.cursor as int] == self.rows@[self.cursor as int].deep_view());
        match &self.rows[self.cursor] {
            ListRow::Commit(i) => {
                let k: usize = *i;
                if k < self.commits.len() {
                    Some(&self.commits[k])
                } else {
                    None
                }
            },
            _ => None,
        }
    }

    pub fn selected_note(&self) -> (r: Option<&NoteMeta>)
        ensures
            match r {
                Some(n) => self.at_note() matches Some(k) && *n == self.notes@[k],
                None => self.at_note() is None,
            },
    {
        proof {
            reveal(App::at_note);
        }
        if self.cursor >= self.rows.len() {
            return None;
        }
        assert(deep(self.rows@)[self.cursor as int] == self.rows@[self.cursor as int].deep_view());
        match &self.rows[self.cursor] {
            ListRow::Note(i) => {
                let k: usize = *i;
                if k < self.notes.len() {
                    Some(&self.notes[k])
                } else {
                    None
                }
            },
            _ => None,
        }
    }

    /// What the cursor is on.
    pub open spec fn identity(self) -> Option<CursorIdV> {
        match (self.at_file(), self.at_dir()) {
            (Some(q), _) => Some(CursorIdV::Entry(self.entries@[q.0].path@, q.1)),
            (None, Some(d)) => Some(CursorIdV::Dir(d.0, d.1)),
            _ => None,
        }
    }

    pub(crate) fn cursor_identity(&self) -> (r: Option<CursorId>)
        ensures
            r.deep_view() == self.identity(),
    {
        match self.selected_entry() {
            Some((e, section)) => Some(CursorId::Entry(e.path.as_str().to_owned(), section)),
            None => match self.selected_dir() {
                Some((p, section)) => Some(CursorId::Dir(p.to_owned(), section)),
                None => None,
            },
        }
    }

    pub(crate) fn restore_cursor(&mut self, keep: Option<CursorId>)
        ensures
            *final(self) == (App { cursor: final(self).cursor, ..*old(self) }),
            final(self).cursor == kept_at(
                deep(old(self).rows@),
                paths(old(self).entries@),
                keep.deep_view(),
                old(self).cursor as int,
            ),
    {
        let n: usize = self.rows.len();
        assert(deep(self.rows@).len() == n);
        match keep {
            Some(CursorId::Entry(path, section)) => {
                let a: usize = find_file_row(&self.rows, &self.entries, path.as_str(), Some(section));
                if a < n {
                    self.cursor = a;
                    return;
                }
                let b: usize = find_file_row(&self.rows, &self.entries, path.as_str(), None);
                if b < n {
                    self.cursor = b;
                    return;
                }
            },
            Some(CursorId::Dir(path, section)) => {
                let a: usize = find_dir_row(&self.rows, path.as_str(), section);
                if a < n {
                    self.cursor = a;
                    return;
                }
            },
            None => {},
        }
        self.snap_cursor();
    }

    // ---- messages ------------------------------------------------------------------------

    /// Tell the user something.
    pub fn set_status(&mut self, msg: &str)
        ensures
            old(self).tells(*final(self), msg@),
    {
        proof {
            reveal(App::tells);
        }
        self.status_msg = Some((msg.to_owned(), self.now));
    }

    #[verifier::opaque]
    pub open spec fn tells(self, after: App, msg: Seq<char>) -> bool {
        &&& after == (App { status_msg: after.status_msg, ..self })
        &&& after.status_msg matches Some(m)
        &&& m.0@ == msg
        &&& m.1 == self.now
    }

    /// The message to show, while it is fresh.
    pub fn active_status(&self) -> (r: Option<&str>)
        ensures
            match self.status_msg {
                Some(m) if self.now - m.1 < STATUS_MS => r matches Some(s) && s@ == m.0@,
                _ => r is None,
            },
    {
        match &self.status_msg {
            Some(m) => {
                if self.now < m.1 || self.now - m.1 < STATUS_MS {
                    Some(m.0.as_str())
                } else {
                    None
                }
            },
            None => None,
        }
    }

    pub open spec fn base_text(self) -> Seq<char> {
        if self.base@.len() == 0 {
            "base"@
        } else {
            self.base@
        }
    }

    /// The base, or a word for it.
    pub fn base_or_default(&self) -> (r: String)
        ensures
            r@ == self.base_text(),
    {
        if self.base.as_str().unicode_len() == 0 {
            "base".to_owned()
        } else {
            self.base.as_str().to_owned()
        }
    }

    // ---- starting -------------------------------------------------------------------------

    /// Nothing was asked for yet, and nothing but the files is known.
    pub open spec fn fresh(self) -> bool {
        &&& self.commits@.len() == 0 && self.notes@.len() == 0 && self.collapsed@.len() == 0
        &&& self.base@.len() == 0 && self.merge_base is None && self.branch_commits is None
        &&& !self.log_branch_only && self.commit is None && self.list_offset == 0
        &&& !self.should_quit && self.modal is None
        &&& self.busy is None && !self.needs_reshow && self.after_edit is None
        &&& self.editor_close_request is None && self.close_request is None
        &&& self.last_click is None
        &&& !self.modal_external && self.notes_return is None && self.annotate_request is None
        &&& !self.send_notes_request && self.edit_note_request is None
        &&& self.delete_note_request is None && self.need is None && self.git_request is None
    }

    /// The list around files that have been loaded.
    pub fn from_entries(repo: Repo, cfg: Config, keys: Keymap, branch: Option<String>, entries: Vec<FileEntry>, now: u64) -> (r: App)
        requires
            keys.wf(),
        ensures
            r.wf(),
            r.repo == repo && r.cfg == cfg && r.keys == keys && r.branch == branch,
            r.entries == entries && r.now == now,
            r.mode == Mode::Files,
            r.scope == if cfg.default_scope == ScopePref::Branch {
                Scope::Branch
            } else {
                Scope::Worktree
            },
            deep(r.rows@) == r.derived(),
            r.cursor == snapped(r.derived(), 0),
            r.fresh(),
            r.status_msg is None && r.load_error is None,
    {
        let scope: Scope = match cfg.default_scope {
            ScopePref::Branch => Scope::Branch,
            ScopePref::Worktree => Scope::Worktree,
        };
        let mut app = App {
            repo,
            cfg,
            keys,
            mode: Mode::Files,
            scope,
            entries,
            commits: Vec::new(),
            log_branch_only: false,
            commit: None,
            rows: Vec::new(),
            cursor: 0,
            list_offset: 0,
            base: String::new(),
            merge_base: None,
            branch_commits: None,
            branch,
            status_msg: None,
            now,
            load_error: None,
            should_quit: false,
            modal: None,
            busy: None,
            needs_reshow: false,
            after_edit: None,
            editor_close_request: None,
            close_request: None,
            last_click: None,
            collapsed: Vec::new(),
            modal_external: false,
            notes: Vec::new(),
            notes_return: None,
            annotate_request: None,
            send_notes_request: false,
            edit_note_request: None,
            delete_note_request: None,
            need: None,
            git_request: None,
        };
        let ghost start = app;
        app.rebuild_rows();
        proof {
            lemma_derived_same(start, app);
        }
        app
    }
}

/// The rows are made of nothing but what is shown.
pub proof fn lemma_derived_same(a: App, b: App)
    requires
        a.mode == b.mode,
        a.scope == b.scope,
        a.entries == b.entries,
        a.commits == b.commits,
        a.notes == b.notes,
        a.collapsed == b.collapsed,
    ensures
        a.derived() == b.derived(),
{
    reveal(App::derived);
}

} // verus!
