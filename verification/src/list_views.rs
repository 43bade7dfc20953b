//! The views of the list pane: going from one to another, and what becomes of
//! what was loaded for them.

use vstd::prelude::*;

use crate::config::{Config, ScopePref};
use crate::git::{CommitInfo, FileEntry, Scope};
use crate::git_parse::{first_line, headline};
use crate::git_repo::{log_words, watched_log, Repo};
use crate::keymap::{
    all_entries, all_known, bindable, copy_strings, default_keys, override_models, refused, Keymap,
    KeymapError,
};
use crate::keymap_laws::law_own_keys_always_bind;
use crate::list::{
    dir_row, find_dir_row, kept_at, lemma_derived_same, paths, snapped, App, CursorId, Need,
    LOG_LIMIT,
};
use crate::list_rows::{closed_models, is_closed, Mode, Section};
use crate::text::{concat2, concat3, decimal, decimal_of, deep, same};

verus! {

// ---- keys --------------------------------------------------------------------------------

/// The map of the settings' keys, or of the actions' own ones and why the
/// settings' could not be taken.
pub fn build_keymap(overrides: &Vec<(String, String)>) -> (r: (Keymap, Option<String>))
    ensures
        r.0.wf(),
        ({
            let os = override_models(overrides@);
            let entries = all_entries(default_keys(), os);
            if all_known(default_keys(), os) && bindable(entries, entries.len() as int) {
                r.1 is None && r.0.entries() == entries
            } else {
                &&& r.1 matches Some(m)
                &&& exists|e: KeymapError| #[trigger]
                    refused(os, e) && m@ == "keybindings ignored: "@ + e.words()
                &&& r.0.entries() == all_entries(default_keys(), Seq::empty())
            }
        }),
{
    match Keymap::build(overrides) {
        Ok(keys) => (keys, None),
        Err(e) => {
            let text: String = e.message();
            let msg: String = concat2("keybindings ignored: ", text.as_str());
            assert(refused(override_models(overrides@), e));
            let none: Vec<(String, String)> = Vec::new();
            proof {
                law_own_keys_always_bind();
                assert(override_models(none@) =~= Seq::empty());
            }
            match Keymap::build(&none) {
                Ok(keys) => (keys, Some(msg)),
                Err(_) => (Keymap { bound: Vec::new() }, Some(msg)),
            }
        },
    }
}

// ---- directories -----------------------------------------------------------------------

/// The closed directories with one of them opened, or one more closed.
pub open spec fn flipped(closed: Seq<(Section, Seq<char>)>, key: (Section, Seq<char>)) -> Seq<(Section, Seq<char>)> {
    if closed.contains(key) {
        opened_one(closed, key)
    } else {
        closed.push(key)
    }
}

pub open spec fn opened_one(closed: Seq<(Section, Seq<char>)>, key: (Section, Seq<char>)) -> Seq<(Section, Seq<char>)>
    decreases closed.len(),
{
    if closed.len() == 0 {
        Seq::empty()
    } else if closed.last() == key {
        opened_one(closed.drop_last(), key)
    } else {
        opened_one(closed.drop_last(), key).push(closed.last())
    }
}

fn drop_closed(closed: &Vec<(Section, String)>, section: Section, path: &str) -> (r: Vec<(Section, String)>)
    ensures
        closed_models(r@) == opened_one(closed_models(closed@), (section, path@)),
{
    let ghost all = closed_models(closed@);
    let mut out: Vec<(Section, String)> = Vec::new();
    let mut i: usize = 0;
    assert(closed_models(out@) =~= opened_one(all.take(0), (section, path@)));
    while i < closed.len()
        invariant
            i <= closed@.len(),
            all == closed_models(closed@),
            closed_models(out@) == opened_one(all.take(i as int), (section, path@)),
        decreases closed@.len() - i,
    {
        assert(all.take(i + 1).drop_last() =~= all.take(i as int));
        let keep: bool = !(closed[i].0 == section && same(closed[i].1.as_str(), path));
        if keep {
            let ghost before = closed_models(out@);
            let p: String = closed[i].1.as_str().to_owned();
            let ghost pv = p@;
            out.push((closed[i].0, p));
            assert(closed_models(out@) =~= before.push((closed@[i as int].0, pv)));
        }
        i += 1;
    }
    assert(all.take(i as int) =~= all);
    out
}

/// What the base was found to be: its name, its merge base, and how many
/// commits lie on top of that.
pub type Based = Result<(String, String, Option<u32>), String>;

/// What files are compared with in a scope: the merge base, as far as it is known;
/// none for the working tree.
pub open spec fn base_loaded(scope: Scope, merge_base: Option<Seq<char>>) -> Option<Seq<char>> {
    match scope {
        Scope::Worktree => None,
        Scope::Branch => Some(
            match merge_base {
                Some(mb) => mb,
                None => "HEAD"@,
            },
        ),
    }
}

pub fn base_to_load(scope: Scope, merge_base: &Option<String>) -> (r: Option<String>)
    ensures
        r.deep_view() == base_loaded(scope, merge_base.deep_view()),
{
    match scope {
        Scope::Worktree => None,
        Scope::Branch => match merge_base {
            Some(mb) => Some(mb.as_str().to_owned()),
            None => Some("HEAD".to_owned()),
        },
    }
}

impl App {
    /// The list after the directory at the cursor was opened or closed. The
    /// cursor stays on it.
    #[verifier::opaque]
    pub open spec fn dir_toggled(self, after: App) -> bool {
        match self.at_dir() {
            None => after == self,
            Some((path, section)) => {
                let mid = App { collapsed: after.collapsed, ..self };
                let rows = mid.derived();
                let at = dir_row(rows, path, section, 0);
                &&& after == (App {
                    collapsed: after.collapsed,
                    rows: after.rows,
                    cursor: after.cursor,
                    ..self
                })
                &&& closed_models(after.collapsed@) == flipped(
                    closed_models(self.collapsed@),
                    (section, path),
                )
                &&& deep(after.rows@) == rows
                &&& after.cursor == if at < rows.len() {
                    at
                } else {
                    snapped(rows, self.cursor as int)
                }
            },
        }
    }

    /// Open or close the directory at the cursor; false if there is none.
    pub fn toggle_selected_dir(&mut self) -> (r: bool)
        ensures
            r == (old(self).at_dir() is Some),
            !r ==> *final(self) == *old(self),
            old(self).dir_toggled(*final(self)),
    {
        proof {
            reveal(App::dir_toggled);
        }
        let (path, section): (String, Section) = match self.selected_dir() {
            None => {
                return false;
            },
            Some((p, s)) => (p.to_owned(), s),
        };
        let ghost before = closed_models(self.collapsed@);
        if is_closed(&self.collapsed, section, path.as_str()) {
            let rest: Vec<(Section, String)> = drop_closed(&self.collapsed, section, path.as_str());
            self.collapsed = rest;
        } else {
            self.collapsed.push((section, path.as_str().to_owned()));
            assert(closed_models(self.collapsed@) =~= before.push((section, path@)));
        }
        self.rebuild_rows();
        assert(deep(self.rows@).len() == self.rows@.len());
        let at: usize = find_dir_row(&self.rows, path.as_str(), section);
        if at < self.rows.len() {
            self.cursor = at;
        }
        true
    }

    // ---- refreshing ------------------------------------------------------------------------

    /// The list of other files, with the cursor on what it was on.
    pub open spec fn refreshed(self, after: App, entries: Vec<FileEntry>) -> bool {
        let rows = (App { entries, ..self }).derived();
        &&& after == (App { entries, rows: after.rows, cursor: after.cursor, ..self })
        &&& deep(after.rows@) == rows
        &&& after.cursor == kept_at(
            rows,
            paths(entries@),
            self.identity(),
            snapped(rows, self.cursor as int),
        )
    }

    fn take_entries(&mut self, entries: Vec<FileEntry>)
        ensures
            old(self).refreshed(*final(self), entries),
    {
        let keep: Option<CursorId> = self.cursor_identity();
        self.entries = entries;
        self.rebuild_rows();
        self.restore_cursor(keep);
    }

    /// The files changed on disk. History is a snapshot and stays.
    pub fn apply_refresh(&mut self, entries: Vec<FileEntry>)
        ensures
            if old(self).mode == Mode::Files {
                old(self).refreshed(*final(self), entries)
            } else {
                *final(self) == *old(self)
            },
    {
        if self.mode == Mode::Files {
            self.take_entries(entries);
        }
    }

    /// Have the files loaded again.
    pub fn force_refresh(&mut self)
        ensures
            *final(self) == (App {
                need: if old(self).mode == Mode::Files {
                    Some(Need::Entries { rebuild: false })
                } else {
                    old(self).need
                },
                ..*old(self)
            }),
    {
        if self.mode == Mode::Files {
            self.need = Some(Need::Entries { rebuild: false });
        }
    }

    /// The list after the files were loaded, or could not be. Why they could
    /// not stays until they can.
    pub open spec fn loads(self, after: App, loaded: Result<Vec<FileEntry>, String>) -> bool {
        match loaded {
            Ok(entries) => {
                let p = App { load_error: None, ..self };
                p.refreshed(after, entries)
            },
            Err(e) => {
                &&& after == (App {
                    status_msg: after.status_msg,
                    load_error: after.load_error,
                    ..self
                })
                &&& after.status_msg matches Some(m)
                &&& m.0@ == headline(e@)
                &&& m.1 == self.now
                &&& after.load_error matches Some(l)
                &&& l@ == headline(e@)
            },
        }
    }

    fn take_load(&mut self, loaded: Result<Vec<FileEntry>, String>)
        ensures
            old(self).loads(*final(self), loaded),
    {
        proof {
            reveal(App::tells);
        }
        match loaded {
            Ok(entries) => {
                self.load_error = None;
                self.take_entries(entries);
            },
            Err(e) => {
                let msg: String = first_line(e.as_str());
                self.set_status(msg.as_str());
                self.load_error = Some(msg);
            },
        }
    }

    /// The files that were asked for; with `rebuild`, the rows are made anew
    /// whatever came.
    pub fn entries_loaded(&mut self, loaded: Result<Vec<FileEntry>, String>, rebuild: bool)
        ensures
            if rebuild {
                exists|mid: App| #[trigger] old(self).loads(mid, loaded) && mid.rebuilt(*final(self))
            } else {
                old(self).loads(*final(self), loaded)
            },
    {
        self.take_load(loaded);
        if rebuild {
            let ghost mid = *self;
            self.rebuild_rows();
            assert(old(self).loads(mid, loaded) && mid.rebuilt(*self));
        }
    }

    /// The editor or the commit is done.
    pub fn on_edit_done(&mut self)
        ensures
            *final(self) == (App {
                busy: None,
                needs_reshow: true,
                need: if old(self).mode == Mode::Files {
                    Some(Need::Entries { rebuild: false })
                } else {
                    old(self).need
                },
                ..*old(self)
            }),
    {
        self.busy = None;
        self.force_refresh();
        self.needs_reshow = true;
    }

    /// What is to be loaded now.
    pub fn take_need(&mut self) -> (r: Option<Need>)
        ensures
            r == old(self).need,
            *final(self) == (App { need: None, ..*old(self) }),
    {
        self.need.take()
    }

    /// What the files of the present comparison are taken against: the merge
    /// base; none for the working tree.
    pub fn load_entries(&self) -> (r: Option<String>)
        ensures
            r.deep_view() == base_loaded(self.scope, self.merge_base.deep_view()),
    {
        base_to_load(self.scope, &self.merge_base)
    }

    /// The command for the commits that the history's filter asks for: this
    /// branch's own, or all, those of the watched refs `live` among them.
    pub fn load_commits(&self, live: &[String]) -> (r: Vec<String>)
        ensures
            deep(r@) == match (self.log_branch_only, self.merge_base) {
                (true, Some(mb)) => log_words(
                    seq![mb@ + "..HEAD"@],
                    Seq::empty(),
                    LOG_LIMIT as nat,
                ),
                _ => watched_log(self.branch.deep_view(), deep(live@), LOG_LIMIT as nat),
            },
    {
        if self.log_branch_only {
            match &self.merge_base {
                Some(mb) => {
                    return Repo::log_branch_commits(mb.as_str(), LOG_LIMIT);
                },
                None => {},
            }
        }
        let branch: Option<&str> = match &self.branch {
            Some(b) => Some(b.as_str()),
            None => None,
        };
        Repo::log_with_refs(live, branch, LOG_LIMIT)
    }

    // ---- starting ---------------------------------------------------------------------------

    /// The list with its base known.
    pub open spec fn with_base(self, base: String, merge_base: String, ahead: Option<u32>) -> App {
        App { base, merge_base: Some(merge_base), branch_commits: ahead, ..self }
    }

    fn set_base(&mut self, base: String, merge_base: String, ahead: Option<u32>)
        ensures
            *final(self) == old(self).with_base(base, merge_base, ahead),
    {
        self.branch_commits = ahead;
        self.base = base;
        self.merge_base = Some(merge_base);
    }

    /// The list as it starts. Files that could not be loaded leave it empty,
    /// and it says why.
    pub fn new(repo: Repo, cfg: Config, keys: Keymap, branch: Option<String>, loaded: Result<Vec<FileEntry>, String>, now: u64) -> (r: App)
        requires
            keys.wf(),
        ensures
            r.wf(),
            r.keys == keys && r.repo == repo && r.cfg == cfg && r.branch == branch && r.now == now,
            r.mode == Mode::Files,
            r.scope == if cfg.default_scope == ScopePref::Branch {
                Scope::Branch
            } else {
                Scope::Worktree
            },
            deep(r.rows@) == r.derived(),
            r.cursor == snapped(r.derived(), 0),
            match loaded {
                Ok(entries) => r.entries == entries && r.load_error is None && r.status_msg is None,
                Err(e) => {
                    &&& r.entries@.len() == 0
                    &&& r.load_error matches Some(l)
                    &&& l@ == headline(e@)
                    &&& r.status_msg matches Some(m)
                    &&& m.0@ == headline(e@) && m.1 == now
                },
            },
            r.fresh(),
    {
        proof {
            reveal(App::tells);
        }
        match loaded {
            Ok(entries) => App::from_entries(repo, cfg, keys, branch, entries, now),
            Err(e) => {
                let mut app: App = App::from_entries(repo, cfg, keys, branch, Vec::new(), now);
                let ghost start = app;
                let msg: String = first_line(e.as_str());
                app.set_status(msg.as_str());
                app.load_error = Some(msg);
                proof {
                    lemma_derived_same(start, app);
                }
                app
            },
        }
    }

    /// A list that starts in branch scope is given its base and the branch's
    /// files. Without a base it stays in the working tree.
    pub fn start_in_branch(&mut self, based: Based, loaded: Result<Vec<FileEntry>, String>)
        ensures
            if old(self).scope != Scope::Branch {
                *final(self) == *old(self)
            } else {
                match (based, loaded) {
                    (Err(_), _) => *final(self) == (App { scope: Scope::Worktree, ..*old(self) }),
                    (Ok(b), Ok(entries)) => (App {
                        entries,
                        ..old(self).with_base(b.0, b.1, b.2)
                    }).rebuilt(*final(self)),
                    (Ok(b), Err(_)) => *final(self) == old(self).with_base(b.0, b.1, b.2),
                }
            },
    {
        if self.scope != Scope::Branch {
            return;
        }
        match based {
            Err(_) => {
                self.scope = Scope::Worktree;
            },
            Ok((base, merge_base, ahead)) => {
                self.set_base(base, merge_base, ahead);
                match loaded {
                    Ok(entries) => {
                        self.entries = entries;
                        self.rebuild_rows();
                    },
                    Err(_) => {},
                }
            },
        }
    }

    // ---- history ------------------------------------------------------------------------------

    /// The list on its way back from the history.
    pub open spec fn left_history(self) -> App {
        App {
            mode: Mode::Files,
            commit: None,
            cursor: 0,
            need: Some(Need::Entries { rebuild: true }),
            ..self
        }
    }

    fn leave_history(&mut self)
        ensures
            *final(self) == old(self).left_history(),
    {
        self.mode = Mode::Files;
        self.commit = None;
        self.cursor = 0;
        self.need = Some(Need::Entries { rebuild: true });
    }

    /// The list after the history was asked for, or left. From the branch's
    /// changes it opens on the branch's commits.
    pub open spec fn log_toggled(self, after: App) -> bool {
        match self.mode {
            Mode::Notes => self.tells(after, "leave the notes view first (n)"@),
            Mode::Files => after == (App {
                log_branch_only: self.scope == Scope::Branch && self.merge_base is Some,
                need: Some(Need::Log),
                ..self
            }),
            _ => after == self.left_history(),
        }
    }

    pub fn toggle_log(&mut self)
        ensures
            old(self).log_toggled(*final(self)),
    {
        match self.mode {
            Mode::Notes => self.set_status("leave the notes view first (n)"),
            Mode::Files => {
                self.log_branch_only = self.scope == Scope::Branch && self.merge_base.is_some();
                self.need = Some(Need::Log);
            },
            Mode::Log => self.leave_history(),
            Mode::CommitFiles => self.leave_history(),
        }
    }

    /// The list after the history was loaded, to go to it.
    pub open spec fn log_entered(self, after: App, loaded: Result<Vec<CommitInfo>, String>) -> bool {
        match loaded {
            Err(e) => self.tells(after, "log failed: "@ + e@),
            Ok(commits) => if commits@.len() == 0 && !self.log_branch_only {
                self.tells(after, "no commits yet"@)
            } else {
                let mid = App {
                    commits,
                    mode: Mode::Log,
                    cursor: 0,
                    status_msg: after.status_msg,
                    ..self
                };
                &&& mid.rebuilt(after)
                &&& if commits@.len() == 0 {
                    &&& after.status_msg matches Some(m)
                    &&& m.1 == self.now
                    &&& m.0@ == "no commits on this branch vs "@ + self.base_text() + " — w shows all"@
                } else {
                    after.status_msg == self.status_msg
                }
            },
        }
    }

    pub fn log_loaded(&mut self, loaded: Result<Vec<CommitInfo>, String>)
        ensures
            old(self).log_entered(*final(self), loaded),
    {
        proof {
            reveal(App::tells);
        }
        match loaded {
            Err(e) => {
                let msg: String = concat2("log failed: ", e.as_str());
                self.set_status(msg.as_str());
            },
            Ok(commits) => {
                let empty: bool = commits.len() == 0;
                if empty && !self.log_branch_only {
                    self.set_status("no commits yet");
                    return;
                }
                if empty {
                    let msg: String = concat3(
                        "no commits on this branch vs ",
                        self.base_or_default().as_str(),
                        " — w shows all",
                    );
                    self.set_status(msg.as_str());
                }
                self.commits = commits;
                self.mode = Mode::Log;
                self.cursor = 0;
                self.rebuild_rows();
            },
        }
    }

    /// The history with its filter changed, on its way.
    pub open spec fn filter_flipped(self) -> App {
        App { log_branch_only: !self.log_branch_only, need: Some(Need::Filtered), ..self }
    }

    fn flip_filter(&mut self)
        ensures
            *final(self) == old(self).filter_flipped(),
    {
        self.log_branch_only = !self.log_branch_only;
        self.need = Some(Need::Filtered);
    }

    fn toggle_log_filter(&mut self)
        ensures
            *final(self) == if !old(self).log_branch_only && old(self).merge_base is None {
                App { need: Some(Need::LogBase), ..*old(self) }
            } else {
                old(self).filter_flipped()
            },
    {
        if !self.log_branch_only && self.merge_base.is_none() {
            self.need = Some(Need::LogBase);
        } else {
            self.flip_filter();
        }
    }

    /// The list after the filtered history was loaded. If it could not be, the
    /// filter is as it was.
    pub open spec fn filtered(self, after: App, loaded: Result<Vec<CommitInfo>, String>) -> bool {
        match loaded {
            Err(e) => (App { log_branch_only: !self.log_branch_only, ..self }).tells(
                after,
                "log failed: "@ + e@,
            ),
            Ok(commits) => {
                let mid = App {
                    commits,
                    cursor: 0,
                    list_offset: 0,
                    status_msg: after.status_msg,
                    ..self
                };
                &&& mid.rebuilt(after)
                &&& after.status_msg matches Some(m)
                &&& m.1 == self.now
                &&& m.0@ == if self.log_branch_only {
                    decimal(commits@.len()) + " commits on this branch vs "@ + self.base_text()
                } else {
                    "showing all commits"@
                }
            },
        }
    }

    pub fn filter_loaded(&mut self, loaded: Result<Vec<CommitInfo>, String>)
        ensures
            old(self).filtered(*final(self), loaded),
    {
        proof {
            reveal(App::tells);
        }
        match loaded {
            Err(e) => {
                self.log_branch_only = !self.log_branch_only;
                let msg: String = concat2("log failed: ", e.as_str());
                self.set_status(msg.as_str());
            },
            Ok(commits) => {
                let msg: String = if self.log_branch_only {
                    let n: String = decimal_of(commits.len() as u64);
                    concat3(
                        n.as_str(),
                        " commits on this branch vs ",
                        self.base_or_default().as_str(),
                    )
                } else {
                    "showing all commits".to_owned()
                };
                self.set_status(msg.as_str());
                self.commits = commits;
                self.cursor = 0;
                self.list_offset = 0;
                self.rebuild_rows();
            },
        }
    }

    /// The base that was asked for, to filter the history by it or to compare
    /// with it.
    pub fn base_found(&mut self, based: Based, for_log: bool)
        ensures
            match based {
                Err(e) => old(self).tells(*final(self), "no base found: "@ + e@),
                Ok(b) => *final(self) == if for_log {
                    old(self).with_base(b.0, b.1, b.2).filter_flipped()
                } else {
                    old(self).with_base(b.0, b.1, b.2).in_branch()
                },
            },
    {
        match based {
            Err(e) => {
                let msg: String = concat2("no base found: ", e.as_str());
                self.set_status(msg.as_str());
            },
            Ok((base, merge_base, ahead)) => {
                self.set_base(base, merge_base, ahead);
                if for_log {
                    self.flip_filter();
                } else {
                    self.scope = Scope::Branch;
                    self.force_refresh();
                }
            },
        }
    }

    /// The list of the branch's changes, on its way.
    pub open spec fn in_branch(self) -> App {
        App {
            scope: Scope::Branch,
            need: if self.mode == Mode::Files {
                Some(Need::Entries { rebuild: false })
            } else {
                self.need
            },
            ..self
        }
    }

    /// The list after the comparison was changed. In the history it is the
    /// filter that changes.
    pub open spec fn scope_toggled(self, after: App) -> bool {
        match self.mode {
            Mode::Log => after == if !self.log_branch_only && self.merge_base is None {
                App { need: Some(Need::LogBase), ..self }
            } else {
                self.filter_flipped()
            },
            Mode::Files => after == match self.scope {
                Scope::Worktree => if self.merge_base is None {
                    App { need: Some(Need::ScopeBase), ..self }
                } else {
                    self.in_branch()
                },
                Scope::Branch => App {
                    scope: Scope::Worktree,
                    need: Some(Need::Entries { rebuild: false }),
                    ..self
                },
            },
            _ => self.tells(after, "read-only in history view"@),
        }
    }

    pub fn toggle_scope(&mut self)
        ensures
            old(self).scope_toggled(*final(self)),
    {
        if self.mode == Mode::Log {
            self.toggle_log_filter();
            return;
        }
        if self.mode != Mode::Files {
            self.set_status("read-only in history view");
            return;
        }
        if self.scope == Scope::Worktree {
            if self.merge_base.is_none() {
                self.need = Some(Need::ScopeBase);
                return;
            }
            self.scope = Scope::Branch;
        } else {
            self.scope = Scope::Worktree;
        }
        self.force_refresh();
    }

    /// Go to the files of the commit at the cursor.
    pub fn open_commit(&mut self)
        ensures
            *final(self) == (App {
                need: if old(self).at_commit() is Some {
                    Some(Need::CommitFiles)
                } else {
                    old(self).need
                },
                ..*old(self)
            }),
    {
        if self.selected_commit().is_some() {
            self.need = Some(Need::CommitFiles);
        }
    }

    /// The list after a commit's files were loaded.
    pub open spec fn commit_opened(self, after: App, loaded: Result<Vec<FileEntry>, String>) -> bool {
        match (self.at_commit(), loaded) {
            (None, _) => after == self,
            (Some(_), Err(e)) => self.tells(after, "commit files failed: "@ + e@),
            (Some(k), Ok(entries)) => {
                let mid = App {
                    entries,
                    commit: after.commit,
                    mode: Mode::CommitFiles,
                    cursor: 0,
                    ..self
                };
                &&& mid.rebuilt(after)
                &&& after.commit matches Some(c)
                &&& c.deep_view() == self.commits@[k].deep_view()
            },
        }
    }

    pub fn commit_loaded(&mut self, loaded: Result<Vec<FileEntry>, String>)
        ensures
            old(self).commit_opened(*final(self), loaded),
    {
        let info: CommitInfo = match self.selected_commit() {
            None => {
                return;
            },
            Some(c) => copy_commit(c),
        };
        match loaded {
            Err(e) => {
                let msg: String = concat2("commit files failed: ", e.as_str());
                self.set_status(msg.as_str());
            },
            Ok(entries) => {
                self.entries = entries;
                self.commit = Some(info);
                self.mode = Mode::CommitFiles;
                self.cursor = 0;
                self.rebuild_rows();
            },
        }
    }

    /// The list after the notes were called for, or left for where they were
    /// called from.
    pub open spec fn notes_toggled(self, after: App) -> bool {
        if self.mode == Mode::Notes {
            let to = match self.notes_return {
                Some(m) => m,
                None => Mode::Files,
            };
            let mid = App { mode: to, notes_return: None, cursor: 0, ..self };
            if to == Mode::Files {
                after == (App { need: Some(Need::Entries { rebuild: true }), ..mid })
            } else {
                mid.rebuilt(after)
            }
        } else if self.notes@.len() == 0 {
            self.tells(after, "no notes yet"@)
        } else {
            (App { notes_return: Some(self.mode), mode: Mode::Notes, cursor: 0, ..self }).rebuilt(
                after,
            )
        }
    }

    pub fn toggle_notes_view(&mut self)
        ensures
            old(self).notes_toggled(*final(self)),
    {
        if self.mode == Mode::Notes {
            self.mode = match self.notes_return.take() {
                Some(m) => m,
                None => Mode::Files,
            };
            self.cursor = 0;
            if self.mode == Mode::Files {
                self.need = Some(Need::Entries { rebuild: true });
            } else {
                self.rebuild_rows();
            }
        } else {
            if self.notes.len() == 0 {
                self.set_status("no notes yet");
                return;
            }
            self.notes_return = Some(self.mode);
            self.mode = Mode::Notes;
            self.cursor = 0;
            self.rebuild_rows();
        }
    }

    /// The list after a step back: from a commit's files to the history, from
    /// there to the files, from there out.
    pub open spec fn backed_out(self, after: App) -> bool {
        match self.mode {
            Mode::CommitFiles => {
                let mid = App {
                    commit: None,
                    mode: Mode::Log,
                    entries: after.entries,
                    cursor: 0,
                    ..self
                };
                &&& after.entries@.len() == 0
                &&& mid.rebuilt(after)
            },
            Mode::Log => after == self.left_history(),
            Mode::Notes => self.notes_toggled(after),
            Mode::Files => after == (App { should_quit: true, ..self }),
        }
    }

    pub fn back_or_quit(&mut self)
        ensures
            old(self).backed_out(*final(self)),
    {
        match self.mode {
            Mode::CommitFiles => {
                self.commit = None;
                self.mode = Mode::Log;
                self.entries = Vec::new();
                self.cursor = 0;
                self.rebuild_rows();
            },
            Mode::Log => self.leave_history(),
            Mode::Notes => self.toggle_notes_view(),
            Mode::Files => {
                self.should_quit = true;
            },
        }
    }
}

pub(crate) fn copy_commit(c: &CommitInfo) -> (r: CommitInfo)
    ensures
        r.deep_view() == c.deep_view(),
{
    CommitInfo {
        sha: c.sha.as_str().to_owned(),
        short: c.short.as_str().to_owned(),
        author: c.author.as_str().to_owned(),
        date: c.date.as_str().to_owned(),
        subject: c.subject.as_str().to_owned(),
        body: c.body.as_str().to_owned(),
        refs: copy_strings(&c.refs),
    }
}

// ---- laws -----------------------------------------------------------------------------------

/// A refresh leaves the cursor on the file that it was on, in its section, as
/// long as that has a row for it.
pub proof fn law_refresh_keeps_the_file(a: App, b: App, entries: Vec<FileEntry>, path: Seq<char>, section: Section, k: int)
    requires
        a.refreshed(b, entries),
        a.identity() == Some(crate::list::CursorIdV::Entry(path, section)),
        0 <= k < b.rows@.len(),
        crate::list::is_file_row(deep(b.rows@)[k], paths(entries@), path, Some(section)),
    ensures
        b.cursor < b.rows@.len(),
        crate::list::is_file_row(
            deep(b.rows@)[b.cursor as int],
            paths(entries@),
            path,
            Some(section),
        ),
{
    lemma_file_row(deep(b.rows@), paths(entries@), path, Some(section), 0, k);
}

proof fn lemma_file_row(rows: Seq<crate::list_rows::ListRowV>, files: Seq<Seq<char>>, path: Seq<char>, section: Option<Section>, i: int, k: int)
    requires
        0 <= i <= k < rows.len(),
        crate::list::is_file_row(rows[k], files, path, section),
    ensures
        i <= crate::list::file_row(rows, files, path, section, i) <= k,
        crate::list::is_file_row(
            rows[crate::list::file_row(rows, files, path, section, i)],
            files,
            path,
            section,
        ),
    decreases k - i,
{
    if !crate::list::is_file_row(rows[i], files, path, section) {
        lemma_file_row(rows, files, path, section, i + 1, k);
    }
}

} // verus!
