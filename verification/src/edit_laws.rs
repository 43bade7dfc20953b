//! What the steps of editing, committing and sending do to the panes.

use vstd::prelude::*;

use crate::git::{FileEntry, Scope};
use crate::ipc::{ToList, ToPreview};
use crate::list::{App, Need};
use crate::list_edit::Step;
use crate::list_rows::Mode;
use crate::list_session::{Link, Session};
use crate::preview::PreviewApp;
use crate::text::{decimal, deep};
use crate::thread::{at_id, Author, ThreadStore};

verus! {

// ---- the list's steps ------------------------------------------------------------------

/// A file that is gone is not edited. One that is there is looked for in an editor of
/// the tab where that is wanted and the list has a pane of its own; else the diff pane
/// is told to edit that very file.
pub proof fn law_a_file_is_edited_where_it_is_there(file: &str, there: bool, own_pane: bool)
    ensures
        forall|s: &mut Session, r: Step| #[trigger]
            call_ensures(Session::start_edit, (s, file, there, own_pane), r) ==> {
                let tab = (*s).app.cfg.reuse_tab_nvim && own_pane;
                &&& !there ==> r is Over && (*final(s)).app.status_msg is Some
                &&& there && tab ==> r is TryTab
                &&& there && !tab ==> (r matches Step::Tell(ToPreview::Edit { file: f }) && f@ == file@)
                &&& there ==> *final(s) == *s
            },
{
    reveal(App::tells);
}

/// The list is busy with a file once the diff pane edits it, and says which; where the
/// pane is gone, it is not.
pub proof fn law_the_list_is_busy_while_a_file_is_edited(file: &str)
    ensures
        forall|s: &mut Session, r: Step| #[trigger]
            call_ensures(Session::edit_told, (s, file), r) ==> {
                &&& (*s).link == Link::Down ==> r is Over && *final(s) == *s
                &&& (*s).link != Link::Down ==> r is Focus && ((*final(s)).app.busy matches Some(b) && b@
                    == "editing "@ + file@ + "…"@)
            },
{
}

/// A running editor switches to a file that is there; where it does not, the user is
/// told, and nothing is busy that was not.
pub proof fn law_a_running_editor_switches_files(file: &str, there: bool, took: bool, server: bool)
    ensures
        forall|s: &mut Session, r: Step| #[trigger]
            call_ensures(Session::remote_open, (s, file, there, took, server), r) ==> {
                &&& there && took ==> r is Focus && ((*final(s)).app.busy matches Some(b) && b@ == "editing "@
                    + file@ + "…"@)
                &&& !there || !took ==> r is Over && (*final(s)).app.status_msg is Some
                    && (*final(s)).app.busy == (*s).app.busy
            },
{
    reveal(App::tells);
}

/// A commit is started only where something is staged; else the user is told.
pub proof fn law_a_commit_needs_something_staged(n: usize)
    ensures
        forall|s: &mut Session, r: Step| #[trigger]
            call_ensures(Session::start_commit, (s, Ok(n)), r) ==> {
                &&& n == 0 ==> r is Over && (*final(s)).app.status_msg is Some
                &&& n > 0 ==> (*final(s)).app == (*s).app && (r matches Step::Tell(
                    ToPreview::GitInPane { argv },
                ) && deep(argv@) == seq!["commit"@, "-e"@])
            },
{
    reveal(App::tells);
}

/// A commit that was made is told by its summary.
pub proof fn law_a_commit_is_told_by_its_summary(text: String)
    ensures
        forall|s: &mut Session| #[trigger]
            call_ensures(Session::committed, (s, Some(text)), ()) ==> ((*final(s)).app.status_msg matches Some(m)
                && m.0@ == "committed "@ + text@),
        forall|s: &mut Session| #[trigger]
            call_ensures(Session::committed, (s, None), ()) ==> ((*final(s)).app.status_msg matches Some(m) && m.0@
                == "commit aborted"@),
{
    reveal(App::tells);
}

/// After git changed something the files are loaded and shown anew, and what it
/// complained of is told.
pub proof fn law_what_git_did_is_shown(e: String)
    ensures
        forall|a: &mut App| #[trigger]
            call_ensures(App::git_done, (a, Ok(())), ()) ==> (*final(a)).needs_reshow && ((*a).mode
                == Mode::Files ==> (*final(a)).need == Some(Need::Entries { rebuild: false })),
        forall|a: &mut App| #[trigger]
            call_ensures(App::git_done, (a, Err(e)), ()) ==> (*final(a)).needs_reshow && (
            (*final(a)).status_msg matches Some(m) && m.0@ == e@),
{
    reveal(App::tells);
}

/// A base that was found is kept with its merge base, and what it was looked for is
/// gone on with; where none was found, that is told.
pub proof fn law_a_found_base_is_kept(base: String, merge_base: String, ahead: Option<u32>, e: String, for_log: bool)
    ensures
        forall|a: &mut App| #[trigger]
            call_ensures(App::base_found, (a, Ok((base, merge_base, ahead)), for_log), ()) ==> {
                let b = *final(a);
                &&& b.base == base && b.merge_base == Some(merge_base) && b.branch_commits == ahead
                &&& for_log ==> b.log_branch_only != (*a).log_branch_only && b.need == Some(Need::Filtered)
                    && b.scope == (*a).scope
                &&& !for_log ==> b.scope == Scope::Branch && b.log_branch_only == (*a).log_branch_only
            },
        forall|a: &mut App| #[trigger]
            call_ensures(App::base_found, (a, Err(e), for_log), ()) ==> (*final(a)).scope == (*a).scope
                && ((*final(a)).status_msg matches Some(m) && m.0@ == "no base found: "@ + e@),
{
    reveal(App::tells);
}

// ---- the diff pane's steps -------------------------------------------------------------

/// A note that is being written is stamped with the file's content and the commit that
/// it is written against; nothing else of it changes.
pub proof fn law_a_note_is_stamped(blob: Option<String>, head: Option<String>)
    ensures
        forall|p: &mut PreviewApp| #[trigger]
            call_ensures(PreviewApp::stamp_pending, (p, blob, head), ()) ==> {
                &&& !(*final(p)).stamp_request
                &&& (*p).pending matches Some(q) ==> ((*final(p)).pending matches Some(r) && r.anchor.blob == blob
                    && r.anchor.head_sha == head && r.anchor.file == q.anchor.file && r.anchor.start
                    == q.anchor.start && r.anchor.end == q.anchor.end && r.anchor.snippet == q.anchor.snippet
                    && r.target == q.target)
                &&& (*final(p)).store == (*p).store
            },
{
}

/// An agent is picked among those there are, in a window that grows with their number
/// and says how much is to be sent; where there is none, that is told.
pub proof fn law_an_agent_is_picked_among_some(agents: usize)
    ensures
        forall|p: &mut PreviewApp, r: Option<(String, u16, u16)>| #[trigger]
            call_ensures(PreviewApp::agent_picker, (p, agents), r) ==> {
                &&& agents == 0 ==> r is None && (*final(p)).flash is Some
                &&& agents > 0 ==> *final(p) == *p && (r matches Some(w) && w.0@ == "send "@ + decimal(
                    crate::preview_session::unsent_count((*p).store.threads@),
                ) + " unsent turn(s) to…"@)
                &&& 0 < agents < 8 ==> (r->0).2 == agents + 6
                &&& agents >= 8 ==> (r->0).2 == 14
            },
{
}

/// What was handed to the worker is being asked about, as far as it took it.
pub proof fn law_what_was_taken_is_being_asked(pane: &str, ids: &Vec<u64>, sent: usize, id: u64)
    requires
        sent <= ids@.len(),
    ensures
        forall|p: &mut PreviewApp| #[trigger]
            call_ensures(PreviewApp::dispatched, (p, pane, ids, sent), ()) ==> {
                &&& (*final(p)).in_flight@.contains(id) <==> (*p).in_flight@.contains(id) || ids@.take(
                    sent as int,
                ).contains(id)
                &&& (*final(p)).flash is Some
                &&& (*final(p)).store == (*p).store
            },
{
    assert forall|p: &mut PreviewApp| #[trigger]
        call_ensures(PreviewApp::dispatched, (p, pane, ids, sent), ()) implies {
        &&& (*final(p)).in_flight@.contains(id) <==> (*p).in_flight@.contains(id) || ids@.take(sent as int).contains(id)
        &&& (*final(p)).flash is Some
        &&& (*final(p)).store == (*p).store
    } by {
        crate::preview_session::law_dispatched_is_busy((*p).in_flight@, ids@.take(sent as int), id);
    }
}

/// A page down and a page up scroll by as much, in opposite directions.
pub proof fn law_pages_go_down_and_up(full: bool)
    ensures
        forall|p: &mut PreviewApp| #[trigger]
            call_ensures(PreviewApp::page, (p, true, full), ()) ==> (*final(p)).view.model()
                == (*p).view.model().scrolled(
                (*p).view.model().page_rows(full) as i32,
                (*p).active(),
                (*p).cfg.theme,
            ),
        forall|p: &mut PreviewApp| #[trigger]
            call_ensures(PreviewApp::page, (p, false, full), ()) ==> (*final(p)).view.model()
                == (*p).view.model().scrolled(
                (-(*p).view.model().page_rows(full)) as i32,
                (*p).active(),
                (*p).cfg.theme,
            ),
{
}

/// An answer is written down as the agent's and a further word as the user's, in the
/// conversation that it is for; one that is gone is passed over.
pub proof fn law_words_are_written_down_as_whose_they_are(id: u64, text: String)
    ensures
        forall|p: &mut PreviewApp| #[trigger]
            call_ensures(PreviewApp::append_reply, (p, id, text), ()) ==> {
                let k = at_id((*p).store.threads@, id);
                &&& k < 0 ==> *final(p) == *p
                &&& k >= 0 ==> (*final(p)).store.threads@[k].turns@.last().author == Author::Agent
                    && (*final(p)).store.threads@[k].turns@.last().text == text
            },
        forall|p: &mut PreviewApp| #[trigger]
            call_ensures(PreviewApp::append_human_turn, (p, id, text), ()) ==> {
                let k = at_id((*p).store.threads@, id);
                &&& k < 0 ==> *final(p) == *p
                &&& k >= 0 ==> (*final(p)).store.threads@[k].turns@.last().author == Author::Human
                    && (*final(p)).store.threads@[k].turns@.last().text == text
            },
{
}

/// A number that was given out is not given out again.
pub proof fn law_numbers_are_given_out_once()
    ensures
        forall|s: &mut ThreadStore, r: u64| #[trigger]
            call_ensures(ThreadStore::alloc_id, (s,), r) ==> r == (*s).next_id && (*final(s)).next_id > r
                && (*final(s)).threads == (*s).threads,
{
}

/// What the pane wants of the list goes out once, as it was asked for.
pub proof fn law_the_panes_requests_go_out_once()
    ensures
        forall|p: &mut PreviewApp, r: Vec<ToList>| #[trigger]
            call_ensures(PreviewApp::take_requests, (p,), r) ==> {
                &&& !(*final(p)).notes_view_request && !(*final(p)).edit_request
                &&& (*p).notes_view_request && !(*p).edit_request ==> r@ == seq![ToList::ShowNotesView]
                &&& !(*p).notes_view_request && (*p).edit_request ==> r@ == seq![ToList::EditRequest]
                &&& !(*p).notes_view_request && !(*p).edit_request ==> r@.len() == 0
                &&& (*p).notes_view_request && (*p).edit_request ==> r@ == seq![
                    ToList::ShowNotesView,
                    ToList::EditRequest,
                ]
            },
{
    assert forall|p: &mut PreviewApp, r: Vec<ToList>| #[trigger]
        call_ensures(PreviewApp::take_requests, (p,), r) implies {
        &&& !(*final(p)).notes_view_request && !(*final(p)).edit_request
        &&& (*p).notes_view_request && !(*p).edit_request ==> r@ == seq![ToList::ShowNotesView]
        &&& !(*p).notes_view_request && (*p).edit_request ==> r@ == seq![ToList::EditRequest]
        &&& !(*p).notes_view_request && !(*p).edit_request ==> r@.len() == 0
        &&& (*p).notes_view_request && (*p).edit_request ==> r@ == seq![
            ToList::ShowNotesView,
            ToList::EditRequest,
        ]
    } by {
        if (*p).notes_view_request && (*p).edit_request {
            assert(r@ =~= seq![ToList::ShowNotesView, ToList::EditRequest]);
        } else if (*p).notes_view_request {
            assert(r@ =~= seq![ToList::ShowNotesView]);
        } else if (*p).edit_request {
            assert(r@ =~= seq![ToList::EditRequest]);
        }
    }
}

/// The picker is opened once it was asked for, and while no other window is open.
pub proof fn law_the_picker_waits_for_the_window(open: bool)
    ensures
        forall|p: &mut PreviewApp, r: bool| #[trigger]
            call_ensures(PreviewApp::take_popup, (p, open), r) ==> {
                &&& r <==> (*p).popup_request is Some && !open
                &&& r ==> (*final(p)).popup_request is None
                &&& !r ==> *final(p) == *p
            },
{
}

/// A fold is opened where there is one, and nothing else changes.
pub proof fn law_only_a_fold_is_opened(at: usize)
    ensures
        forall|d: &mut crate::render::DiffDoc, r: bool| #[trigger]
            call_ensures(crate::render::DiffDoc::unfold_at, (d, at), r) ==> {
                &&& r <==> at < (*d).model().len() && (*d).model()[at as int] is Fold
                &&& !r ==> *final(d) == *d
                &&& r ==> crate::rows::unfolded((*final(d)).model()) == crate::rows::unfolded((*d).model())
                &&& (*final(d)).first_change == (*d).first_change
            },
{
    assert forall|d: &mut crate::render::DiffDoc, r: bool| #[trigger]
        call_ensures(crate::render::DiffDoc::unfold_at, (d, at), r) implies {
        &&& r <==> at < (*d).model().len() && (*d).model()[at as int] is Fold
        &&& !r ==> *final(d) == *d
        &&& r ==> crate::rows::unfolded((*final(d)).model()) == crate::rows::unfolded((*d).model())
        &&& (*final(d)).first_change == (*d).first_change
    } by {
        if r {
            crate::render::law_opening_a_fold_shows_its_lines((*d).model(), at as int);
        }
    }
}

/// A reply is begun with an empty box in the conversation that it is for.
pub proof fn law_a_reply_is_begun_in_its_conversation(id: u64)
    ensures
        forall|p: &mut PreviewApp, r: bool| #[trigger]
            call_ensures(PreviewApp::begin_reply, (p, id), r) ==> {
                &&& r <==> at_id((*p).store.threads@, id) >= 0
                &&& !r ==> *final(p) == *p
                &&& r ==> ((*final(p)).pending matches Some(q) && q.target == crate::layout::Target::Reply(id))
                &&& r ==> ((*final(p)).composer matches Some(c) && c.input.model().text.len() == 0)
            },
{
}

/// A list that starts in the branch's changes shows them where the base is found, and
/// the working tree's where it is not.
pub proof fn law_a_list_starts_where_it_can(base: String, merge_base: String, ahead: Option<u32>, e: String, entries: Vec<FileEntry>)
    ensures
        forall|a: &mut App| #[trigger]
            call_ensures(App::start_in_branch, (a, Ok((base, merge_base, ahead)), Ok(entries)), ()) ==> {
                &&& (*a).scope == Scope::Branch ==> (*final(a)).entries == entries && (*final(a)).merge_base
                    == Some(merge_base) && (*final(a)).scope == Scope::Branch
                &&& (*a).scope != Scope::Branch ==> *final(a) == *a
            },
        forall|a: &mut App| #[trigger]
            call_ensures(App::start_in_branch, (a, Err(e), Ok(entries)), ()) ==> (*final(a)).scope
                == Scope::Worktree,
{
}

} // verus!
