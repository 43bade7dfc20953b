//! What the preview pane does with keys, clicks, messages and answers.

use vstd::prelude::*;

use crate::docview::{lemma_restored_len, ViewV};
use crate::git::{ChangeKind, Scope};
use crate::ipc::ToPreview;
use crate::keymap::{Action, Key, KeyCode};
use crate::layout::Target;
use crate::path::{joined, same_file};
use crate::preview::{Mouse, PopupReq, PreviewApp, ReqV};
use crate::preview_session::{note_req, questions_for, sides, unsent_count, Source};
use crate::render::DiffDoc;
use crate::reply::ReplyMsg;
use crate::rows::RowV;
use crate::splice::to_base;
use crate::text::{decimal, deep, is_blank, occurs};
use crate::thread::{at_id, newest_pending, pending_at, without_id, Author, Thread, ThreadState};

verus! {

// ---- the box --------------------------------------------------------------------------

/// A new note opens a conversation behind all others, on the lines that it was
/// written for, with one turn of the user's that is yet to be sent. The others stay
/// as they are, and the box is gone.
pub proof fn law_a_new_note_opens_a_conversation(before: PreviewApp, after: PreviewApp)
    requires
        before.commits(after),
        before.composer matches Some(c) && !is_blank(c.input.text@),
        before.pending matches Some(p) && p.target == Target::New,
    ensures
        ({
            let (old, new) = (before.store.threads@, after.store.threads@);
            let t = new.last();
            &&& new.len() == old.len() + 1
            &&& new.drop_last() == old
            &&& t.anchor == before.pending->0.anchor
            &&& t.turns@.len() == 1
            &&& t.turns@[0].text@ == before.composer->0.input.text@
            &&& t.turns@[0].author == Author::Human
            &&& !t.turns@[0].sent
            &&& t.state == ThreadState::Draft
            &&& t.id == before.store.next_id && after.store.next_id == t.id + 1
            &&& after.composer is None && after.pending is None
            &&& after.save_request
            &&& after.notes_rev == before.notes_rev + 1 || before.notes_rev == u64::MAX
        }),
{
    let (old, new) = (before.store.threads@, after.store.threads@);
    assert(new.drop_last() =~= old);
}

/// A rewritten note changes the text of its own turn and nothing else, and a reply
/// adds a turn behind the others; no other conversation is touched.
pub proof fn law_a_rewritten_note_stays_in_place(before: PreviewApp, after: PreviewApp, i: int, j: int)
    requires
        before.commits(after),
        before.composer matches Some(c) && !is_blank(c.input.text@),
        0 <= i < before.store.threads@.len(),
    ensures
        (before.pending matches Some(p) && p.target matches Target::Edit { id, turn } && {
            let k = at_id(before.store.threads@, id);
            let t = before.store.threads@[k];
            &&& k >= 0
            &&& turn < t.turns@.len() && !t.turns@[turn as int].sent
        }) ==> ({
            let id = (before.pending->0.target)->Edit_id;
            let turn = (before.pending->0.target)->turn;
            let k = at_id(before.store.threads@, id);
            let (t, u) = (before.store.threads@[k], after.store.threads@[k]);
            &&& i != k ==> after.store.threads@[i] == before.store.threads@[i]
            &&& u.turns@.len() == t.turns@.len()
            &&& u.turns@[turn as int].text@ == before.composer->0.input.text@
            &&& u.turns@[turn as int].author == t.turns@[turn as int].author
            &&& 0 <= j < t.turns@.len() && j != turn ==> u.turns@[j] == t.turns@[j]
        }),
        (before.pending matches Some(p) && p.target matches Target::Reply(id) && at_id(
            before.store.threads@,
            id,
        ) >= 0) ==> ({
            let k = at_id(before.store.threads@, (before.pending->0.target)->Reply_0);
            let (t, u) = (before.store.threads@[k], after.store.threads@[k]);
            &&& i != k ==> after.store.threads@[i] == before.store.threads@[i]
            &&& u.turns@.len() == t.turns@.len() + 1
            &&& u.turns@.last().text@ == before.composer->0.input.text@
            &&& u.turns@.last().author == Author::Human && !u.turns@.last().sent
            &&& 0 <= j < t.turns@.len() ==> u.turns@[j] == t.turns@[j]
        }),
{
}

/// A box that is given up, or holds nothing but blanks, leaves no note behind.
pub proof fn law_a_box_given_up_leaves_nothing(before: PreviewApp, after: PreviewApp, key: Key)
    requires
        before.typed(after, key),
        before.composer is Some,
    ensures
        key.code == KeyCode::Esc ==> after.composer is None && after.store == before.store && after.pending is None,
        key.code == KeyCode::Enter && !key.mods.shift && !key.mods.alt && is_blank(
            before.composer->0.input.text@,
        ) ==> after.composer is None && after.store == before.store && after.save_request
            == before.save_request,
        before.composer->0.input.model().edited(key, before.box_text_width()) matches Some(t) ==> {
            &&& after.store == before.store
            &&& after.composer matches Some(d)
            &&& d.input.model() == t
            &&& d.editing == before.composer->0.editing
        },
{
}

/// While the box is open, keys go to it; else a key does what it is bound to.
pub proof fn law_keys_go_to_the_open_box(before: PreviewApp, after: PreviewApp, key: Key)
    requires
        before.keyed(after, key),
    ensures
        before.composer is Some ==> before.typed(after, key),
        before.composer is None ==> (match before.keys.action_of(key) {
            Some(a) => before.acts(after, a),
            None => after == before,
        }),
{
}

// ---- actions --------------------------------------------------------------------------

/// Down and up go a line, half pages half of the pane, and top and bottom to the
/// ends.
pub proof fn law_actions_move_the_cursor(before: PreviewApp, after: PreviewApp)
    ensures
        before.acts(after, Action::Down) ==> before.moves(after, 1),
        before.acts(after, Action::Up) ==> before.moves(after, -1),
        before.acts(after, Action::Top) ==> before.moves(after, i32::MIN as int),
        before.acts(after, Action::Bottom) ==> before.moves(after, i32::MAX as int),
        before.acts(after, Action::HalfPageDown) && before.view.model().height >= 2 ==> before.moves(
            after,
            before.view.model().height / 2,
        ),
        before.acts(after, Action::HalfPageUp) && before.view.model().height >= 2 ==> before.moves(
            after,
            -(before.view.model().height / 2),
        ),
{
}

/// Selecting begins a selection at the cursor, and ends one that there is; to quit
/// first ends the selection.
pub proof fn law_a_selection_is_begun_and_ended(before: PreviewApp, after: PreviewApp)
    requires
        before.active(),
    ensures
        before.acts(after, Action::Select) && before.view.model().select is None ==> after.view.model().select
            == Some(before.view.cursor_line),
        before.acts(after, Action::Select) && before.view.model().select is Some ==> after.view.model().select is None,
        before.acts(after, Action::Quit) && before.view.model().select is Some ==> after.view.model().select is None
            && after.should_quit == before.should_quit,
        before.acts(after, Action::Quit) && before.view.model().select is None ==> after.should_quit
            && after.close_view,
{
    reveal(ViewV::restyled);
}

/// Collapsing a conversation twice gives back what was shown, and touches no other.
pub proof fn law_collapsing_twice_changes_nothing(a: PreviewApp, b: PreviewApp, c: PreviewApp, id: u64, other: u64)
    requires
        crate::docview::thread_meant(a.view.model().card_starts, a.view.model().cursor) == Some(id),
        crate::docview::thread_meant(b.view.model().card_starts, b.view.model().cursor) == Some(id),
        a.acts(b, Action::ToggleThread),
        b.acts(c, Action::ToggleThread),
        a.collapsed@.finite(),
    ensures
        b.collapsed@.contains(id) != a.collapsed@.contains(id),
        other != id ==> b.collapsed@.contains(other) == a.collapsed@.contains(other),
        c.collapsed@ == a.collapsed@,
        c.store == a.store,
{
    assert(c.collapsed@ =~= a.collapsed@);
}

/// A note on the selection is written for the lines that are selected. It is refused
/// on anything but changes of the worktree, and where no selected line is in the new
/// text.
pub proof fn law_a_note_is_written_for_the_selection(before: PreviewApp, after: PreviewApp)
    requires
        before.acts(after, Action::Annotate),
        before.current is Some,
        before.built is Some,
    ensures
        ({
            let req = before.current->0;
            let v = before.view.model();
            let (a, b) = v.selected();
            let range = crate::notes::note_range(
                crate::notes::new_numbers(v.card_lines, before.built->0.model(), a, b + 1),
            );
            if req.commit is Some || req.scope != Scope::Worktree || range is None {
                &&& after.composer == before.composer && after.pending == before.pending
                &&& after.flash is Some
            } else {
                &&& after.composer is Some
                &&& after.pending matches Some(p)
                &&& p.target == Target::New
                &&& p.anchor.file@ == req.file@
                &&& p.anchor.start == (range->0).0 && p.anchor.end == (range->0).1
                &&& p.anchor.snippet@ == crate::notes::snippet(
                    v.card_lines,
                    before.built->0.model(),
                    a,
                    b + 1,
                )
                &&& p.anchor.cached == req.cached
                &&& after.stamp_request
            }
        }),
{
}

/// Notes are sent only where there is something to send: then an agent is to be
/// picked, and else the user is told.
pub proof fn law_sending_needs_something_to_send(before: PreviewApp, after: PreviewApp, i: int)
    requires
        before.acts(after, Action::SendNotes) || before.send_asked(after),
    ensures
        0 <= i < before.store.threads@.len() && before.store.threads@[i].wants_sending()
            ==> after.popup_request == Some(PopupReq::PickAgent),
        (forall|k: int|
            0 <= k < before.store.threads@.len() ==> !(#[trigger] before.store.threads@[k]).wants_sending())
            ==> after.popup_request == before.popup_request && after.flash is Some,
        after.store == before.store,
{
}

// ---- the mouse ------------------------------------------------------------------------

/// A click on a line puts the cursor there and ends the selection; on a fold it opens
/// the fold, and on a card it does nothing. The wheel scrolls by three rows.
pub proof fn law_a_click_puts_the_cursor_there(before: PreviewApp, after: PreviewApp, kind: Mouse, y: u16)
    requires
        before.pointed(after, kind, y),
        y >= 1,
    ensures
        after.store == before.store,
        ({
            let v = before.view.model();
            let line = v.line_at(v.scroll + y - 1);
            &&& kind is Down && before.fold_at(line) is None && !v.is_card(line) && line < v.doc.len()
                ==> after.view.model().cursor == line && after.view.model().select is None
            &&& kind is Down && before.fold_at(line) is None && v.is_card(line) ==> after == before
            &&& kind is Down && before.fold_at(line) is Some ==> {
                let rows = before.built->0.model();
                let k = before.fold_at(line)->0;
                &&& to_base(v.card_lines, line) == Some(k)
                &&& after.built is Some
                &&& after.built->0.model() == rows.take(k) + Seq::new(
                    (rows[k]->Fold_0).len(),
                    |i: int| RowV::Code((rows[k]->Fold_0)[i]),
                ) + rows.skip(k + 1)
            }
            &&& kind is ScrollDown ==> after.view.model() == v.scrolled(3, before.active(), before.cfg.theme)
            &&& kind is ScrollUp ==> after.view.model() == v.scrolled(
                -3 as i32,
                before.active(),
                before.cfg.theme,
            )
        }),
{
    reveal(ViewV::restyled);
    let v = before.view.model();
    lemma_restored_len(v.doc, v.saved);
}

/// A drag selects from where it began: the first one at the cursor, and those after
/// it at the same place.
pub proof fn law_a_drag_selects_from_where_it_began(before: PreviewApp, after: PreviewApp, y: u16)
    requires
        before.pointed(after, Mouse::Drag, y),
        y >= 1,
        before.view.model().doc.len() > 0,
    ensures
        ({
            let v = before.view.model();
            let line = v.line_at(v.scroll + y - 1);
            &&& v.select is None ==> after.view.model().select == Some(before.view.cursor_line)
            &&& v.select is Some ==> after.view.model().select == v.select
            &&& 0 <= line < v.doc.len() && !v.is_card(line) ==> after.view.model().cursor == line
        }),
{
    reveal(ViewV::restyled);
    let v = before.view.model();
    lemma_restored_len(v.doc, v.saved);
}

/// The line of the file that the cursor is on: by its number in the new text, a
/// deleted one by its number in the old.
pub proof fn law_the_cursor_is_on_a_line_of_the_file(a: PreviewApp, k: int)
    requires
        a.built is Some,
        to_base(a.view.model().card_lines, a.view.model().cursor) == Some(k),
        0 <= k < a.built->0.model().len(),
        a.built->0.model()[k] is Code,
    ensures
        ({
            let l = a.built->0.model()[k]->Code_0;
            &&& l.new_no is Some ==> a.file_line() == l.new_no
            &&& l.new_no is None ==> a.file_line() == l.old_no
        }),
{
}

// ---- diffs and messages ---------------------------------------------------------------

/// A diff that comes is shown. Of the file that was shown before, cursor and
/// selection are kept; of another file the pane begins at the top.
pub proof fn law_a_diff_is_shown(before: PreviewApp, after: PreviewApp, d: DiffDoc)
    requires
        before.shows(after, d),
    ensures
        d.binary ==> after.state is Binary && after.built is None,
        !d.binary && d.is_empty ==> after.state is Empty && after.built is None,
        !d.binary && !d.is_empty ==> after.state is Diff && after.built == Some(d),
        after.first_change == d.first_change,
        after.store == before.store,
        !d.binary && !d.is_empty && before.current is Some ==> (after.shown_file matches Some(f) && f@
            == before.current->0.file@),
        !d.binary && !d.is_empty && before.pending_focus is None && !(before.current matches Some(c)
            && before.shown_file matches Some(f) && same_file(c.file@, f@)) ==> after.view.model()
            == after.rebuilt(ViewV { cursor: 0, select: None, ..before.view.model() }.held()),
        !d.binary && !d.is_empty && before.pending_focus is None && (before.current matches Some(c)
            && before.shown_file matches Some(f) && same_file(c.file@, f@)) ==> after.view.model()
            == after.rebuilt(before.view.model().held()),
{
}

/// A request names its two sides: a commit is shown against its parent, a branch
/// from the merge base to the files, staged changes from HEAD to the index, and
/// others from the index to the files, except that a conflict is shown against our
/// side. A renamed file is looked for under its old name on the old side.
pub proof fn law_each_request_has_its_two_sides(req: ReqV, merge_base: Seq<char>, old_side: Source, new_side: Source)
    requires
        sides(req, merge_base, old_side, new_side),
    ensures
        ({
            let before = match req.orig_path {
                Some(p) => p,
                None => req.file,
            };
            &&& req.commit matches Some(sha) ==> {
                &&& old_side matches Source::At { rev, path } && rev@ == sha.push('^') && path@ == before
                &&& new_side matches Source::At { rev, path } && rev@ == sha && path@ == req.file
            }
            &&& req.commit is None && req.scope == Scope::Branch ==> {
                &&& old_side matches Source::At { rev, path } && rev@ == merge_base && path@ == before
                &&& new_side matches Source::Disk { path } && path@ == req.file
            }
            &&& req.commit is None && req.scope == Scope::Worktree && req.cached ==> {
                &&& old_side matches Source::At { rev, path } && rev@ == "HEAD"@ && path@ == before
                &&& new_side matches Source::At { rev, path } && rev@ == ":0"@ && path@ == req.file
            }
            &&& req.commit is None && req.scope == Scope::Worktree && !req.cached ==> {
                &&& new_side matches Source::Disk { path } && path@ == req.file
                &&& req.kind == ChangeKind::Conflicted ==> (old_side matches Source::Ours { path } && path@
                    == req.file)
                &&& req.kind != ChangeKind::Conflicted ==> (old_side matches Source::At { rev, path } && rev@
                    == ":0"@ && path@ == req.file)
            }
        }),
{
    reveal_strlit("^");
    if let Some(sha) = req.commit {
        assert(sha + "^"@ =~= sha.push('^'));
    }
}

/// What the list asks for is done: a file to show becomes the current one and its
/// diff is asked for, rows are scrolled, a note is deleted and no other, and a note's
/// file is brought up where it is not on screen.
pub proof fn law_the_list_is_obeyed(before: PreviewApp, after: PreviewApp, msg: ToPreview, base: Option<String>, diffs: Seq<ReqV>)
    requires
        before.hears(after, msg, base, diffs),
    ensures
        msg is Show ==> {
            &&& diffs.len() == 1
            &&& diffs[0].file == msg->Show_file@ && diffs[0].scope == msg->scope && diffs[0].cached
                == msg->Show_cached
            &&& diffs[0].orig_path == msg->orig_path.deep_view() && diffs[0].kind == msg->kind
                && diffs[0].commit == msg->commit.deep_view()
            &&& after.current matches Some(c)
            &&& c.file == msg->Show_file
            &&& after.store == before.store
            &&& before.current is None ==> after.view.scroll == 0
        },
        msg is Quit ==> after.should_quit && diffs.len() == 0,
        msg is Clear ==> after.current is None && after.built is None && after.state is Splash && diffs.len() == 0,
        msg matches ToPreview::Scroll { delta } ==> after.view.model() == before.view.model().scrolled(
            delta,
            before.active(),
            before.cfg.theme,
        ),
        msg matches ToPreview::DeleteNote { id } ==> (at_id(before.store.threads@, id) >= 0
            ==> after.store.threads@ == without_id(before.store.threads@, id) && after.save_request),
        msg matches ToPreview::DeleteNote { id } ==> (at_id(before.store.threads@, id) < 0
            ==> after.store.threads@ == before.store.threads@),
        msg matches ToPreview::FocusNote { id } ==> (!before.note_on_screen(id) ==> after.pending_focus == Some(id)),
        msg is SendNotes ==> before.send_asked(after),
{
    reveal(PreviewApp::hears_one);
    reveal_with_fuel(PreviewApp::hears, 2);
}

/// The first conversation of that number is found, and deleting takes the
/// conversations of that number and no others.
pub proof fn law_deleting_takes_one_note(threads: Seq<Thread>, t: Thread, id: u64, k: int)
    ensures
        t.id == id ==> without_id(threads.push(t), id) == without_id(threads, id),
        t.id != id ==> without_id(threads.push(t), id) == without_id(threads, id).push(t),
        without_id(Seq::empty(), id).len() == 0,
        0 <= k < threads.len() && threads[k].id == id && (forall|j: int|
            0 <= j < k ==> (#[trigger] threads[j]).id != id) ==> at_id(threads, id) == k,
        (forall|j: int| 0 <= j < threads.len() ==> (#[trigger] threads[j]).id != id) ==> at_id(threads, id) < 0,
    decreases threads.len(),
{
    assert(threads.push(t).drop_last() =~= threads);
    if threads.len() > 0 {
        let init = threads.drop_last();
        law_deleting_takes_one_note(init, t, id, k);
        if 0 <= k < threads.len() && threads[k].id == id && (forall|j: int|
            0 <= j < k ==> (#[trigger] threads[j]).id != id) {
            if k < init.len() {
                assert(init[k] == threads[k]);
                assert forall|j: int| 0 <= j < k implies (#[trigger] init[j]).id != id by {
                    assert(init[j] == threads[j]);
                }
            } else {
                assert forall|j: int| 0 <= j < init.len() implies (#[trigger] init[j]).id != id by {
                    assert(init[j] == threads[j]);
                }
            }
        }
        if forall|j: int| 0 <= j < threads.len() ==> (#[trigger] threads[j]).id != id {
            assert forall|j: int| 0 <= j < init.len() implies (#[trigger] init[j]).id != id by {
                assert(init[j] == threads[j]);
            }
        }
    }
}

/// Opening a note again brings up its newest turn that was not sent, to be rewritten;
/// where all were sent, an empty reply. A note that is gone is told to be.
pub proof fn law_an_opened_note_is_rewritten_or_answered(before: PreviewApp, after: PreviewApp, id: u64)
    requires
        before.note_reopened(after, id),
    ensures
        ({
            let k = at_id(before.store.threads@, id);
            let t = before.store.threads@[k];
            let n = newest_pending(t.turns@);
            &&& k < 0 ==> after.composer == before.composer && after.flash is Some
            &&& k >= 0 ==> after.composer is Some && after.composer->0.editing == Some(id)
            &&& k >= 0 && n >= 0 ==> {
                &&& after.composer->0.input.model().text == t.turns@[n].text@
                &&& after.pending matches Some(p)
                &&& p.target == Target::Edit { id, turn: n as usize }
                &&& p.anchor.start == t.anchor.start && p.anchor.end == t.anchor.end
            }
            &&& k >= 0 && n < 0 ==> {
                &&& after.composer->0.input.model().text.len() == 0
                &&& after.pending matches Some(p)
                &&& p.target == Target::Reply(id)
            }
            &&& after.store == before.store
        }),
{
}

/// The diff of a note's file is that of the worktree, staged or not as the note was.
pub proof fn law_a_notes_file_is_brought_up(t: Thread)
    ensures
        note_req(t).file == t.anchor.file@,
        note_req(t).cached == t.anchor.cached,
        note_req(t).scope == Scope::Worktree,
        note_req(t).commit is None && note_req(t).orig_path is None,
{
}

// ---- questions and answers ------------------------------------------------------------

/// Each conversation that has something to send, and is not being asked about, is
/// asked about once, with its own words and to the agent that was picked; no other
/// is.
pub proof fn law_each_conversation_is_asked_about(threads: Seq<Thread>, t: Thread, busy: Set<u64>, root: Seq<char>, pane: Seq<char>)
    ensures
        ({
            let (all, rest) = (
                questions_for(threads.push(t), busy, root, pane),
                questions_for(threads, busy, root, pane),
            );
            &&& t.wants_sending() && !busy.contains(t.id) ==> {
                &&& all.len() == rest.len() + 1
                &&& all.drop_last() == rest
                &&& all.last().pane == pane && all.last().id == t.id
                &&& all.last().prompt == crate::reply::prompt_text(root, t)
                &&& all.last().turns == pending_at(t.turns@)
            }
            &&& !t.wants_sending() || busy.contains(t.id) ==> all == rest
            &&& questions_for(Seq::empty(), busy, root, pane).len() == 0
        }),
        unsent_count(threads.push(t)) == unsent_count(threads) + if t.wants_sending() {
            1nat
        } else {
            0nat
        },
        unsent_count(Seq::empty()) == 0,
{
    assert(threads.push(t).drop_last() =~= threads);
    let (all, rest) = (
        questions_for(threads.push(t), busy, root, pane),
        questions_for(threads, busy, root, pane),
    );
    if t.wants_sending() && !busy.contains(t.id) {
        assert(all.drop_last() =~= rest);
    }
}

/// An answer is added to the conversation that it belongs to, word for word and as
/// the agent's, which is then no longer being asked about. A failure is told and
/// written there too. No other conversation is touched.
pub proof fn law_an_answer_lands_in_its_conversation(before: PreviewApp, after: PreviewApp, msg: ReplyMsg, i: int)
    requires
        before.answered(after, msg),
        at_id(before.store.threads@, msg.of()) >= 0,
        0 <= i < before.store.threads@.len(),
    ensures
        ({
            let k = at_id(before.store.threads@, msg.of());
            let (t, u) = (before.store.threads@[k], after.store.threads@[k]);
            &&& after.store.threads@.len() == before.store.threads@.len()
            &&& i != k ==> after.store.threads@[i] == before.store.threads@[i]
            &&& u.id == t.id && u.anchor == t.anchor
            &&& after.save_request
            &&& msg matches ReplyMsg::Replied { id, text } ==> {
                &&& u.turns@ == t.turns@.push(u.turns@.last())
                &&& u.turns@.last().text@ == text@ && u.turns@.last().author == Author::Agent
                &&& after.in_flight@ == before.in_flight@.remove(id)
            }
            &&& msg matches ReplyMsg::Failed { id, turns, err, retry } ==> {
                &&& u.turns@.last().text@ == err@ && u.turns@.last().author == Author::System
                &&& after.in_flight@ == before.in_flight@.remove(id)
            }
            &&& msg matches ReplyMsg::Delivered { id, turns, agent } ==> {
                &&& u.agent == Some(*agent)
                &&& after.in_flight == before.in_flight
                &&& forall|j: int|
                    0 <= j < t.turns@.len() && turns@.contains(j as usize) ==> (#[trigger] u.turns@[j]).sent
            }
        }),
{
}

/// The editor's command: the words of the configuration, the first change where the
/// diff on screen is of that file, and last the file, under the repository's root.
pub proof fn law_the_editor_is_called_on_the_file(a: PreviewApp, file: Seq<char>, server: Option<Seq<char>>)
    ensures
        ({
            let (e, w) = (deep(a.cfg.editor@), a.editor_words(file, server));
            &&& w.len() > e.len()
            &&& w.take(e.len() as int) == e
            &&& w.last() == joined(a.repo.root@, file)
            &&& (a.current matches Some(c) && same_file(c.file@, file)) && a.first_change is Some
                ==> w[w.len() - 2] == seq!['+'] + decimal((a.first_change->0) as nat)
            &&& !(a.current matches Some(c) && same_file(c.file@, file)) && server is None ==> w
                == e.push(joined(a.repo.root@, file))
            &&& a.first_change is None && server is None ==> w == e.push(joined(a.repo.root@, file))
            &&& (server matches Some(s) && e.len() > 0 && occurs(e[0], "nvim"@)) ==> w[e.len() as int]
                == "--listen"@ && w[e.len() as int + 1] == server->0
        }),
{
    reveal_strlit("+");
    assert("+"@ =~= seq!['+']);
    let (e, w) = (deep(a.cfg.editor@), a.editor_words(file, server));
    assert(w.take(e.len() as int) =~= e);
    if server is None && (a.first_change is None || !(a.current matches Some(c) && same_file(c.file@, file))) {
        assert(w =~= e.push(joined(a.repo.root@, file)));
    }
}

/// After a note was saved the pane is laid out anew, without a selection.
pub proof fn law_a_saved_note_is_laid_out(before: PreviewApp, after: PreviewApp)
    requires
        before.commits(after),
        before.composer matches Some(c) && !is_blank(c.input.text@),
        before.pending matches Some(p) && p.target == Target::New,
    ensures
        after.view.model() == after.rebuilt(ViewV { select: None, ..before.view.model() }),
        after.current == before.current && after.built == before.built,
{
}

/// A note on the selection leaves the lines selected while it is written; one on the
/// whole file does not. The box is empty, and its file is to be stamped.
pub proof fn law_the_selection_stays_while_a_note_is_written(before: PreviewApp, after: PreviewApp, keep: bool)
    requires
        before.box_opens(after, keep),
    ensures
        keep ==> after.view.model() == after.rebuilt(before.view.model()).at_composer(),
        !keep ==> after.view.model() == after.rebuilt(ViewV { select: None, ..before.view.model() }).at_composer(),
        after.composer matches Some(c) && c.input.text@.len() == 0 && c.editing is None,
        after.stamp_request,
        after.store == before.store,
{
}

/// The base is kept once it is known: the one that comes with a request counts only
/// where a branch is compared and none is known yet.
pub proof fn law_a_known_base_is_kept(a: PreviewApp, req: crate::preview::ShowReq, base: Option<String>)
    ensures
        a.base is Some ==> a.begun(req, base).base == a.base,
        a.base is None && req.scope == Scope::Branch ==> a.begun(req, base).base == base,
        req.scope == Scope::Worktree ==> a.begun(req, base).base == a.base,
        a.begun(req, base).current == Some(req),
        (a.current matches Some(c) && same_file(c.file@, req.file@)) ==> a.begun(req, base).view == a.view,
{
}

/// A commit's message takes the pane: no file is current, and the message is shown
/// from its top.
pub proof fn law_a_message_takes_the_pane(before: PreviewApp, after: PreviewApp, short: Seq<char>, subject: Seq<char>, author: Seq<char>, date: Seq<char>, body: Seq<char>)
    requires
        before.reads(after, short, subject, author, date, body),
    ensures
        after.current is None && after.built is None,
        after.state matches crate::preview::State::Message(s) && s@ == short,
        after.view.model().doc == crate::preview_message::message_doc(short, subject, author, date, body),
        after.view.model().scroll == 0 && after.view.model().cursor == 0 && after.view.model().select is None,
        after.store == before.store,
{
}

/// What is asked is told with the agent's pane and the number of conversations; where
/// there is nothing to ask, that is said, or how many are being asked about.
pub proof fn law_what_is_asked_is_told(pane: Seq<char>, n: nat)
    ensures
        n != 1 ==> crate::preview_session::asking_words(pane, n) == "asking "@ + pane + " about "@ + decimal(n) + " threads…"@,
        crate::preview_session::asking_words(pane, 1) == "asking "@ + pane + " about "@ + decimal(1) + " thread…"@,
        crate::preview_session::nothing_to_ask(0) == "nothing unsent"@,
        n > 0 ==> crate::preview_session::nothing_to_ask(n) == "already asking about "@ + decimal(n)
            + " thread(s)"@,
{
    reveal_strlit(" thread");
    reveal_strlit("s");
    reveal_strlit("");
    reveal_strlit("…");
    reveal_strlit(" threads…");
    reveal_strlit(" thread…");
    let head = "asking "@ + pane + " about "@ + decimal(n);
    assert(head + " thread"@ + "s"@ + "…"@ =~= head + " threads…"@);
    let one = "asking "@ + pane + " about "@ + decimal(1);
    assert(one + " thread"@ + ""@ + "…"@ =~= one + " thread…"@);
}

/// A fold is under a row of the pane where that row shows a fold of the diff, the first
/// row among them.
pub proof fn law_a_fold_is_under_its_row(a: PreviewApp, line: int, k: int)
    requires
        a.built is Some,
        to_base(a.view.model().card_lines, line) == Some(k),
    ensures
        a.fold_at(line) == Some(k) <==> 0 <= k < a.built->0.model().len() && a.built->0.model()[k] is Fold,
        a.fold_at(line) is Some ==> a.fold_at(line) == Some(k),
{
}

/// Only what puts another file on screen asks for a diff.
pub proof fn law_only_another_file_asks_for_a_diff(before: PreviewApp, after: PreviewApp, msg: ToPreview, base: Option<String>, diffs: Seq<ReqV>)
    requires
        before.hears(after, msg, base, diffs),
        !(msg is Show) && !(msg is ComposeNote),
    ensures
        !(msg is ComposeEditNote) ==> diffs.len() == 0,
        msg matches ToPreview::ComposeEditNote { id } ==> (at_id(before.store.threads@, id) < 0
            || before.in_shown_file(id) ==> diffs.len() == 0),
        msg matches ToPreview::ComposeEditNote { id } ==> (at_id(before.store.threads@, id) >= 0
            && !before.in_shown_file(id) ==> diffs == seq![
            note_req(before.store.threads@[at_id(before.store.threads@, id)]),
        ]),
{
    reveal(PreviewApp::hears_one);
    reveal(PreviewApp::note_called);
    reveal_with_fuel(PreviewApp::hears, 2);
}

} // verus!
