//! What the list pane does with keys, messages and time.

use vstd::prelude::*;

use crate::git::{CommitInfo, FileEntry, Scope};
use crate::ipc::{NoteMeta, ToList, ToPreview, PROTO};
use crate::keymap::{Action, Key, KeyCode};
use crate::list::{dir_row, App, EditorThen, Modal, Need};
use crate::list_rows::{closed_models, ListRowV, Mode, Section};
use crate::list_session::{entry_place, note_place, Deed, Link, Session};
use crate::list_tick::RoundV;
use crate::list_views::{base_loaded, flipped};
use crate::path::{place, same_file};
use crate::text::{deep, trim};

verus! {

// ---- what is selected -----------------------------------------------------------------

/// The selection is what the cursor's row stands for, and nothing else.
pub proof fn law_the_cursors_row_is_selected(a: App)
    requires
        a.cursor < a.rows@.len(),
    ensures
        ({
            let row = deep(a.rows@)[a.cursor as int];
            &&& row matches ListRowV::Entry { idx, section, .. } ==> (0 <= idx < a.entries@.len()
                ==> a.at_file() == Some((idx, section))) && a.at_dir() is None && a.at_note() is None
                && a.at_commit() is None
            &&& row matches ListRowV::Dir { path, section, .. } ==> a.at_dir() == Some((path, section))
                && a.at_file() is None
            &&& row matches ListRowV::Commit(k) ==> (0 <= k < a.commits@.len() ==> a.at_commit() == Some(k))
                && a.at_file() is None
            &&& row matches ListRowV::Note(k) ==> (0 <= k < a.notes@.len() ==> a.at_note() == Some(k))
                && a.at_file() is None
        }),
{
    reveal(App::at_file);
    reveal(App::at_dir);
    reveal(App::at_commit);
    reveal(App::at_note);
    assert(deep(a.rows@).len() == a.rows@.len());
}

/// Whether a message asks for the diff of one file in full.
pub open spec fn asks_for(m: ToPreview, e: FileEntry, scope: Scope, staged: bool, commit: Option<Seq<char>>) -> bool {
    &&& m is Show
    &&& m->Show_file@ == e.path@
    &&& m->orig_path.deep_view() == e.orig_path.deep_view()
    &&& m->scope == scope
    &&& m->Show_cached == staged
    &&& m->kind == e.kind
    &&& m->commit.deep_view() == commit
}

/// Once the selection has rested long enough, and not before, the selected file is
/// shown: its staged change where it is selected among the staged ones, and its
/// change in the commit where a commit's files are listed. Where no file is selected,
/// and no directory, the pane is cleared. It is shown once.
pub proof fn law_the_selection_is_shown_when_it_rests(s: Session, after: Session, r: Seq<ToPreview>)
    requires
        s.show_taken(after, r),
        s.app.mode != Mode::Notes,
    ensures
        ({
            let rested = s.show_dirty && s.app.now - s.dirty_since >= s.show_debounce;
            let a = s.app;
            &&& !rested ==> r.len() == 0 && after == s
            &&& rested ==> !after.show_dirty
            &&& rested && a.mode != Mode::CommitFiles ==> (a.at_file() matches Some(q) ==> r.len() == 1
                && asks_for(r[0], a.entries@[q.0], a.scope, q.1 == Section::Staged, None))
            &&& rested && a.mode == Mode::CommitFiles && a.commit is Some ==> (a.at_file() matches Some(q)
                ==> r.len() == 1 && asks_for(
                r[0],
                a.entries@[q.0],
                a.scope,
                q.1 == Section::Staged,
                Some((a.commit->0).sha@),
            ))
            &&& rested && a.at_file() is None && a.at_dir() is None ==> r == seq![ToPreview::Clear]
            &&& rested && a.at_file() is None && a.at_dir() is Some ==> r.len() == 0
            &&& after.app == s.app
        }),
{
    reveal(Session::show_taken);
}

/// In the list of notes the selected note's file is shown, on the side that the note
/// was written on, and then the note itself.
pub proof fn law_a_selected_note_is_shown(s: Session, after: Session, r: Seq<ToPreview>, k: int)
    requires
        s.show_taken(after, r),
        s.app.mode == Mode::Notes,
        s.show_dirty && s.app.now - s.dirty_since >= s.show_debounce,
        s.app.at_note() == Some(k),
        0 <= k < s.app.notes@.len(),
        forall|j: int| 0 <= j < k ==> (#[trigger] s.app.notes@[j]).id != s.app.notes@[k].id,
    ensures
        r.len() == 2,
        r[0] is Show,
        r[0]->Show_file@ == s.app.notes@[k].file@,
        r[0]->Show_cached == s.app.notes@[k].cached,
        r[0]->scope == Scope::Worktree,
        r[0]->commit is None,
        r[1] == (ToPreview::FocusNote { id: s.app.notes@[k].id }),
{
    reveal(Session::show_taken);
    lemma_note_place(s.app.notes@, s.app.notes@[k].id, 0, k);
}

proof fn lemma_note_place(notes: Seq<NoteMeta>, id: u64, i: int, k: int)
    requires
        0 <= i <= k < notes.len(),
        notes[k].id == id,
        forall|j: int| i <= j < k ==> (#[trigger] notes[j]).id != id,
    ensures
        note_place(notes, id, i) == k,
    decreases k - i,
{
    if i < k {
        lemma_note_place(notes, id, i + 1, k);
    }
}

/// A file is found by its path, the first of that path.
pub proof fn law_a_file_is_found_by_its_path(entries: Seq<FileEntry>, path: Seq<char>, i: int, k: int)
    requires
        0 <= i <= k <= entries.len(),
        forall|j: int| i <= j < k ==> !same_file((#[trigger] entries[j]).path@, path),
        k < entries.len() ==> same_file(entries[k].path@, path),
    ensures
        entry_place(entries, path, i) == k,
    decreases k - i,
{
    if i < k {
        assert(!same_file(entries[i].path@, path));
        law_a_file_is_found_by_its_path(entries, path, i + 1, k);
    }
}

/// When a key has changed what is to be shown, that is shown next, and the time that
/// it has to rest is counted from then; else all stays as it was.
pub proof fn law_a_changed_selection_is_shown_anew(s: Session, before: Option<crate::list_session::ShowKeyV>)
    ensures
        s.app.showing() != before || s.app.needs_reshow ==> s.settled(before).show_dirty && s.settled(
            before,
        ).dirty_since == s.app.now,
        s.app.showing() == before && !s.app.needs_reshow ==> s.settled(before).show_dirty == s.show_dirty
            && s.settled(before).dirty_since == s.dirty_since,
        !s.settled(before).app.needs_reshow,
{
    reveal(Session::settled);
}

/// What is shown of a file differs by its place, by its being staged, and by the
/// commit: the two changes of a file that is staged in part are told apart.
pub proof fn law_staged_and_unstaged_are_told_apart(a: App, k: int, section: Section)
    requires
        a.mode != Mode::Notes,
        a.at_file() == Some((k, section)),
    ensures
        ({
            let key = a.showing();
            &&& key is Some
            &&& (key->0).file == place(a.entries@[k].path@)
            &&& (key->0).cached <==> section == Section::Staged
            &&& (key->0).scope == a.scope
            &&& a.mode == Mode::CommitFiles && a.commit is Some ==> (key->0).commit == Some(
                (a.commit->0).sha@,
            )
            &&& a.mode != Mode::CommitFiles ==> (key->0).commit is None
        }),
{
    reveal(App::showing);
}

// ---- requests -------------------------------------------------------------------------

/// A note is handed over with the file that is selected, where one is and the diff
/// pane is there; else the user is told why not.
pub proof fn law_a_note_is_asked_for_the_selected_file(s: Session, after: Session, r: Option<ToPreview>)
    requires
        s.annotate_taken(after, r),
        s.app.annotate_request is Some,
        s.app.mode != Mode::CommitFiles,
    ensures
        ({
            let a = App { annotate_request: None, ..s.app };
            &&& a.at_file() matches Some(q) ==> (s.link != Link::Down ==> {
                &&& r matches Some(ToPreview::ComposeNote { show })
                &&& asks_for(*show, a.entries@[q.0], a.scope, q.1 == Section::Staged, None)
                &&& after.app == a
            })
            &&& a.at_file() is None || s.link == Link::Down ==> r is None && after.app.status_msg is Some
            &&& after.app.annotate_request is None
        }),
{
    reveal(Session::annotate_taken);
    reveal(App::tells);
}

/// Requests go out once, as they were made: the note to be opened, the notes to be
/// sent, the note to be deleted, and quitting.
pub proof fn law_requests_go_out_once(s: Session, a: Session, b: Session, c: Session, e: Option<ToPreview>, r: Seq<ToPreview>, q: Option<ToPreview>)
    requires
        s.edit_note_taken(a, e),
        s.sends_taken(b, r),
        s.quit_taken(c, q),
    ensures
        s.link != Link::Down ==> (s.app.edit_note_request matches Some(id) ==> e == Some(
            ToPreview::ComposeEditNote { id },
        )),
        s.app.edit_note_request is None || s.link == Link::Down ==> e is None,
        a.app.edit_note_request is None,
        r.contains(ToPreview::SendNotes) <==> s.app.send_notes_request,
        forall|id: u64|
            r.contains(ToPreview::DeleteNote { id }) <==> s.app.delete_note_request == Some(id),
        !b.app.send_notes_request && b.app.delete_note_request is None,
        q == Some(ToPreview::Quit) <==> s.app.should_quit && !s.quit_sent,
        c.quit_sent <==> s.quit_sent || s.app.should_quit,
{
    reveal(Session::edit_note_taken);
    reveal(Session::sends_taken);
    reveal(Session::quit_taken);
    reveal(App::tells);
    let head: Seq<ToPreview> = if s.app.send_notes_request {
        seq![ToPreview::SendNotes]
    } else {
        seq![]
    };
    if s.app.send_notes_request {
        assert(r[0] == ToPreview::SendNotes);
    }
    if let Some(id) = s.app.delete_note_request {
        assert(r[head.len() as int] == ToPreview::DeleteNote { id });
    }
    assert forall|id: u64|
        r.contains(ToPreview::DeleteNote { id }) implies s.app.delete_note_request == Some(id) by {
        let i = r.index_of(ToPreview::DeleteNote { id });
        assert(r[i] == ToPreview::DeleteNote { id });
    }
    if r.contains(ToPreview::SendNotes) {
        let i = r.index_of(ToPreview::SendNotes);
        assert(r[i] == ToPreview::SendNotes);
    }
}

/// The key that edits opens the selected file, in the editor that runs where one
/// does; in the history it opens the commit, in the notes the note, and on a
/// directory it opens or closes that.
pub proof fn law_the_edit_key_opens_the_selection(s: Session, after: Session, deed: Option<Deed>)
    requires
        s.activated(after, deed),
    ensures
        ({
            let a = s.app;
            &&& a.mode == Mode::Log && a.at_commit() is Some ==> deed is None && after.app.need == Some(
                Need::CommitFiles,
            )
            &&& a.mode == Mode::Notes ==> deed is None && (a.at_note() matches Some(k)
                ==> after.app.edit_note_request == Some(a.notes@[k].id))
            &&& (a.mode == Mode::Files || a.mode == Mode::CommitFiles) ==> {
                &&& a.at_dir() is Some ==> deed is None && a.dir_toggled(after.app)
                &&& a.at_dir() is None && a.busy is Some ==> (a.at_file() matches Some(q) ==> (
                deed matches Some(Deed::Switch { file }) && file@ == a.entries@[q.0].path@))
                &&& a.at_dir() is None && a.busy is None && s.link != Link::Down ==> (
                a.at_file() matches Some(q) ==> (deed matches Some(Deed::Open { file }) && file@
                    == a.entries@[q.0].path@))
                &&& a.at_dir() is None && a.busy is None && s.link == Link::Down ==> deed is None
                    && after.app.status_msg is Some
            }
        }),
{
    reveal(Session::activated);
    reveal(App::tells);
}

/// The message of a commit is shown as it is: of the one at the cursor in the
/// history, and of the one whose files are listed.
pub proof fn law_the_meant_message_is_shown(s: Session, after: Session, deed: Option<Deed>, c: CommitInfo)
    requires
        s.message_asked(after, deed),
        (s.app.mode == Mode::Log && (s.app.at_commit() matches Some(k) && s.app.commits@[k] == c)) || (
        s.app.mode == Mode::CommitFiles && s.app.commit == Some(c)),
    ensures
        deed matches Some(Deed::Send(ToPreview::ShowCommitMessage { short, subject, author, date, body }))
            && short@ == c.short@ && subject@ == c.subject@ && author@ == c.author@ && date@ == c.date@
            && body@ == c.body@,
        c.body@.len() > 0 ==> after == s,
{
    reveal(Session::message_asked);
    reveal(App::tells);
}

/// Scrolling keys scroll the diff by a row or half a page, in their direction, and to
/// its ends; no other key does.
pub proof fn law_scroll_keys_scroll_the_diff(a: Action)
    ensures
        App::scroll_of(Some(Action::ScrollDown)) == Some(ToPreview::Scroll { delta: 1 }),
        App::scroll_of(Some(Action::ScrollUp)) == Some(ToPreview::Scroll { delta: -1i32 as i32 }),
        App::scroll_of(Some(Action::HalfPageDown)) == Some(ToPreview::Page { down: true, full: false }),
        App::scroll_of(Some(Action::HalfPageUp)) == Some(ToPreview::Page { down: false, full: false }),
        App::scroll_of(Some(Action::DiffTop)) == Some(ToPreview::Scroll { delta: i32::MIN }),
        App::scroll_of(Some(Action::DiffBottom)) == Some(ToPreview::Scroll { delta: i32::MAX }),
        App::scroll_of(Some(a)) is Some ==> a is ScrollDown || a is ScrollUp || a is HalfPageDown
            || a is HalfPageUp || a is DiffTop || a is DiffBottom,
        App::scroll_of(None) is None,
{
}

/// A scrolling key changes nothing in the list while no editor runs, and a question
/// on screen takes every key.
pub proof fn law_a_scroll_key_is_passed_on(s: Session, after: Session, key: Key, deed: Option<Deed>)
    requires
        s.key_handled(after, key, deed),
        s.app.keys.action_of(key) is Some,
    ensures
        ({
            let action = s.app.keys.action_of(key);
            &&& s.app.modal is Some ==> deed is None
            &&& s.app.modal is None && s.app.busy is None && App::scroll_of(action) is Some ==> after == s
                && deed == Some(Deed::Send(App::scroll_of(action)->0))
            &&& s.app.modal is None && action == Some(Action::Edit) ==> s.activated(after, deed)
            &&& s.app.modal is None && action == Some(Action::Commit) && s.app.mode == Mode::Files
                && s.link != Link::Down && s.app.busy is None ==> after == s && deed == Some(Deed::Commit)
            &&& s.app.modal is None && action == Some(Action::CommitMessage) && s.link != Link::Down
                && s.app.busy is None ==> s.message_asked(after, deed)
            &&& s.app.modal is None && action == Some(Action::Refresh) && s.link == Link::Down
                && s.has_socket ==> deed == Some(Deed::Connect)
        }),
{
    reveal(Session::key_handled);
}

/// An answer is `y`, `n`, or else a refusal, whatever blanks stand around it.
pub proof fn law_an_answer_is_a_key(t: Seq<char>)
    ensures
        trim(t) == seq!['y'] <==> Session::answer_key(Some(t)).code == KeyCode::Char('y'),
        trim(t) == seq!['n'] <==> Session::answer_key(Some(t)).code == KeyCode::Char('n'),
        trim(t) != seq!['y'] && trim(t) != seq!['n'] ==> Session::answer_key(Some(t)).code == KeyCode::Esc,
        Session::answer_key(None).code == KeyCode::Esc,
{
    reveal_strlit("y");
    reveal_strlit("n");
    assert("y"@ =~= seq!['y']);
    assert("n"@ =~= seq!['n']);
    assert(seq!['y'][0] == 'y' && seq!['n'][0] == 'n');
}

// ---- messages -------------------------------------------------------------------------

/// A diff pane of the same protocol is connected, and one of another is not worked
/// with.
pub proof fn law_a_greeting_tells_the_protocol(s: Session, after: Session, proto: u32, deeds: Seq<Deed>)
    requires
        s.hears(after, ToList::Ready { proto }, deeds),
    ensures
        proto == PROTO <==> after.link == Link::Up,
        proto != PROTO ==> after.link == Link::Foreign && after.app.status_msg is Some,
        deeds.len() == 0,
{
    reveal(Session::greeted);
    reveal(App::tells);
}

/// When the editor or a commit has ended, the list is free again, takes the focus,
/// loads the files anew and shows them; what was to come after the editor comes now.
pub proof fn law_an_ended_editor_frees_the_list(s: Session, after: Session, msg: ToList, deeds: Seq<Deed>)
    requires
        s.hears(after, msg, deeds),
        msg is EditDone || msg is GitDone,
    ensures
        after.app.busy is None,
        after.show_dirty,
        deeds.len() > 0 && deeds[0] == Deed::FocusSelf,
        s.app.mode == Mode::Files ==> after.app.need == Some(Need::Entries { rebuild: false }),
        msg is EditDone ==> (after.app.should_quit <==> s.app.should_quit || s.app.after_edit == Some(
            EditorThen::QuitView,
        )),
        msg is EditDone ==> (deeds.contains(Deed::Commit) <==> s.app.after_edit == Some(EditorThen::Commit)),
        msg matches ToList::GitDone { ok } ==> (deeds.contains(Deed::LastCommit) <==> ok),
{
    reveal(Session::edited);
    reveal(App::tells);
    if deeds.len() > 1 {
        assert(deeds[1] == Deed::Commit || deeds[1] == Deed::LastCommit);
    }
}

/// Notes that come are the list's notes from then on.
pub proof fn law_notes_that_come_are_kept(s: Session, after: Session, notes: Vec<NoteMeta>, deeds: Seq<Deed>)
    requires
        s.hears(after, ToList::Notes { notes }, deeds),
    ensures
        s.link != Link::Foreign && s.app.mode != Mode::Notes ==> after.app.notes == notes
            && after.app.rows == s.app.rows,
        s.link != Link::Foreign && s.app.mode == Mode::Notes && notes@.len() > 0 ==> after.app.notes == notes
            && after.app.mode == Mode::Notes,
        s.link != Link::Foreign && s.app.mode == Mode::Notes && notes@.len() == 0 ==> after.app.mode
            != Mode::Notes || s.app.notes_return == Some(Mode::Notes),
        s.link == Link::Foreign ==> after.app == s.app,
{
    reveal(Session::notes_came);
}

/// The editor's answer: with nothing unsaved it may be closed, with unsaved text the
/// user is asked what to do, and where that is not known it has to be closed first.
pub proof fn law_unsaved_text_is_asked_about(s: Session, after: Session, n: EditorThen, unsaved: Option<bool>)
    requires
        s.probed(after, Some(n), unsaved),
        s.app.busy is Some,
    ensures
        unsaved == Some(false) ==> after.app.after_edit == Some(n) && after.app.modal == s.app.modal,
        unsaved == Some(true) ==> after.app.modal == Some(Modal::EditorClose { next: n })
            && after.app.after_edit == s.app.after_edit,
        unsaved is None ==> after.app.status_msg is Some && after.app.modal == s.app.modal
            && after.app.after_edit == s.app.after_edit,
        !after.probe_pending,
{
    reveal(App::tells);
}

/// The editor is asked once, and only while it runs.
pub proof fn law_the_editor_is_asked_once(s: Session, after: Session, r: Option<EditorThen>)
    requires
        s.probe_taken(after, r),
    ensures
        r is Some <==> s.app.busy is Some && !s.probe_pending && s.app.editor_close_request is Some,
        r is Some ==> r == s.app.editor_close_request && after.probe_pending
            && after.app.editor_close_request is None,
        s.app.busy is None ==> after.app.editor_close_request is None,
{
    reveal(Session::probe_taken);
}

// ---- loads ----------------------------------------------------------------------------

/// Files that were loaded are the list's files, and no error stands; where they could
/// not be, the old ones stay and the error is shown.
pub proof fn law_loaded_files_replace_the_old(a: App, after: App, loaded: Result<Vec<FileEntry>, String>)
    requires
        a.loads(after, loaded),
    ensures
        loaded matches Ok(entries) ==> after.entries == entries && after.load_error is None,
        loaded is Err ==> after.entries == a.entries && after.rows == a.rows && after.cursor == a.cursor
            && after.load_error is Some && after.status_msg is Some,
{
}

/// The history is entered with the commits that were loaded, at its top; where they
/// could not be loaded, or there are none at all, the list stays.
pub proof fn law_the_history_is_entered(a: App, after: App, loaded: Result<Vec<CommitInfo>, String>)
    requires
        a.log_entered(after, loaded),
    ensures
        loaded matches Ok(c) ==> (c@.len() > 0 || a.log_branch_only ==> after.commits == c && after.mode
            == Mode::Log),
        loaded matches Ok(c) ==> (c@.len() == 0 && !a.log_branch_only ==> after.mode == a.mode
            && after.commits == a.commits),
        loaded is Err ==> after.mode == a.mode && after.commits == a.commits && after.status_msg is Some,
{
    reveal(App::tells);
}

/// A filter that could not be applied is taken back.
pub proof fn law_a_filter_is_taken_back_when_it_fails(a: App, after: App, loaded: Result<Vec<CommitInfo>, String>)
    requires
        a.filter_flipped().filtered(after, loaded),
    ensures
        loaded is Err ==> after.log_branch_only == a.log_branch_only && after.commits == a.commits,
        loaded matches Ok(c) ==> after.log_branch_only != a.log_branch_only && after.commits == c,
{
    reveal(App::tells);
}

/// A commit is opened with its own files.
pub proof fn law_a_commit_is_opened_with_its_files(a: App, after: App, loaded: Result<Vec<FileEntry>, String>, k: int)
    requires
        a.commit_opened(after, loaded),
        a.at_commit() == Some(k),
    ensures
        loaded matches Ok(e) ==> after.entries == e && after.mode == Mode::CommitFiles && (
        after.commit matches Some(c) && c.deep_view() == a.commits@[k].deep_view()),
        loaded is Err ==> after.mode == a.mode && after.entries == a.entries,
{
    reveal(App::tells);
}

/// The working tree is compared with nothing else, and a branch with its merge base.
pub proof fn law_a_branch_is_compared_with_its_merge_base(mb: Seq<char>)
    ensures
        base_loaded(Scope::Worktree, Some(mb)) is None && base_loaded(Scope::Worktree, None) is None,
        base_loaded(Scope::Branch, Some(mb)) == Some(mb),
        base_loaded(Scope::Branch, None) == Some("HEAD"@),
{
}

/// Opening or closing a directory leaves the cursor on that directory.
pub proof fn law_a_toggled_directory_keeps_the_cursor(a: App, after: App, path: Seq<char>, section: Section, k: int)
    requires
        a.dir_toggled(after),
        a.at_dir() == Some((path, section)),
        0 <= k < after.rows@.len(),
        deep(after.rows@)[k] matches ListRowV::Dir { path: p, section: s, .. } && p == path && s == section,
    ensures
        after.cursor < after.rows@.len(),
        deep(after.rows@)[after.cursor as int] matches ListRowV::Dir { path: p, section: s, .. } && p == path
            && s == section,
        closed_models(after.collapsed@) == flipped(closed_models(a.collapsed@), (section, path)),
        after.entries == a.entries,
{
    reveal(App::dir_toggled);
    let rows = deep(after.rows@);
    assert(rows.len() == after.rows@.len());
    lemma_dir_row(rows, path, section, 0, k);
}

proof fn lemma_dir_row(rows: Seq<ListRowV>, path: Seq<char>, section: Section, i: int, k: int)
    requires
        0 <= i <= k < rows.len(),
        rows[k] matches ListRowV::Dir { path: p, section: s, .. } && p == path && s == section,
    ensures
        i <= dir_row(rows, path, section, i) <= k,
        rows[dir_row(rows, path, section, i)] matches ListRowV::Dir { path: p, section: s, .. } && p == path
            && s == section,
    decreases k - i,
{
    if i < k {
        if !(rows[i] matches ListRowV::Dir { path: p, section: s, .. } && p == path && s == section) {
            lemma_dir_row(rows, path, section, i + 1, k);
        }
    }
}

// ---- rounds ---------------------------------------------------------------------------

/// What a round asks for goes out in this order: the question to the editor, notes,
/// a question to the user, messages, what is to be shown, and last quitting.
pub proof fn law_a_round_goes_in_order(v: RoundV, popup_open: bool, deeds: Seq<Deed>)
    requires
        Session::round_deeds(v, popup_open, deeds),
    ensures
        ({
            let n: int = (if v.probe is Some {
                1int
            } else {
                0
            }) + (if v.note is Some {
                1int
            } else {
                0
            }) + (if v.edit is Some {
                1int
            } else {
                0
            });
            let q: int = if v.edited.question(popup_open) is Some {
                1
            } else {
                0
            };
            &&& deeds.len() == n + q + v.sends.len() + v.shows.len() + if v.quit is Some {
                1int
            } else {
                0
            }
            &&& v.probe is Some ==> deeds[0] == Deed::Probe(v.probe)
            &&& v.quit matches Some(m) ==> deeds.last() == Deed::Send(m)
            &&& v.edited.question(popup_open) matches Some(t) ==> (deeds[n] matches Deed::Ask(s) && s@ == t)
            &&& forall|i: int|
                0 <= i < v.sends.len() ==> #[trigger] deeds[n + q + i] == Deed::Send(v.sends[i])
            &&& forall|i: int|
                0 <= i < v.shows.len() ==> #[trigger] deeds[n + q + v.sends.len() + i] == Deed::Send(v.shows[i])
        }),
{
}

/// What has to be shown again is shown again, once.
pub proof fn law_what_changed_is_shown_again(s: Session)
    ensures
        s.app.needs_reshow ==> s.reshown().show_dirty && !s.reshown().app.needs_reshow
            && s.reshown().dirty_since == s.app.now,
        !s.app.needs_reshow ==> s.reshown() == s,
{
    reveal(Session::reshown);
}

/// An answer from the popup is a key like any other, and the popup is gone.
pub proof fn law_a_popups_answer_is_a_key(s: Session, after: Session, key: Key)
    requires
        s.pressed(after, key),
    ensures
        exists|mid: App| #[trigger]
            (App { modal_external: false, ..s.app }).keyed(mid, key, s.in_herdr) && after == (Session {
                app: mid,
                ..s
            }).reshown(),
{
    reveal(Session::pressed);
}

/// While the editor runs, moving the selection with the mouse asks the editor first;
/// else a second click opens what is selected.
pub proof fn law_a_click_asks_the_editor_first(s: Session, after: Session, before: Option<crate::list_session::ShowKeyV>, activate: bool, deed: Option<Deed>)
    requires
        s.mouse_settled(after, before, activate, deed),
    ensures
        ({
            let a = s.app;
            let held = a.busy is Some && (a.mode == Mode::Files || a.mode == Mode::CommitFiles) && a.modal is None;
            &&& held && (a.showing() != before || activate) && !s.probe_pending && a.editor_close_request is None
                ==> deed == Some(Deed::Probe(None)) && after.probe_pending
            &&& held && a.showing() == before && !activate ==> deed is None && after == s
            &&& !held && !activate ==> deed is None
            &&& !activate && a.showing() != before ==> after.show_dirty
            &&& !held && !activate && a.showing() == before ==> after == s
        }),
{
    reveal(Session::mouse_settled);
}

} // verus!
