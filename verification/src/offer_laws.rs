//! What is offered, what a click does in the list, and which answers count.

use vstd::prelude::*;

use crate::git::{Scope, StageState};
use crate::ipc::{ToList, PROTO};
use crate::keymap::Action;
use crate::list::{stepped, App, DOUBLE_CLICK_MS};
use crate::list_footer::help_line;
use crate::list_rows::{note_files, notes_on, ListRowV, Mode, Section};
use crate::path::same_file;
use crate::preview::{Mouse, PreviewApp, ReqV, State};
use crate::preview_tick::{Deed, Event};
use crate::splice::{
    ascending, last_start, lemma_init, lemma_spliced_len, lemma_total_nonneg, span_of_composer,
    spliced, total_lines, CardV,
};
use crate::style::LineV;
use crate::text::deep;
use crate::thread::ThreadState;

verus! {

// ---- rows -----------------------------------------------------------------------------

/// The history has a row for each commit, in its order.
pub proof fn law_each_commit_has_its_row(a: App, i: int)
    requires
        a.mode == Mode::Log,
        0 <= i < a.commits@.len(),
    ensures
        a.derived().len() == a.commits@.len(),
        a.derived()[i] == ListRowV::Commit(i),
{
    reveal(App::derived);
}

/// Under a file stand its notes that are not resolved, in their order, and no others.
pub proof fn law_a_files_notes_stand_under_it(files: Seq<Option<Seq<char>>>, f: Seq<char>, file: Seq<char>)
    ensures
        same_file(f, file) ==> notes_on(files.push(Some(f)), file) == notes_on(files, file).push(
            ListRowV::Note(files.len() as int),
        ),
        !same_file(f, file) ==> notes_on(files.push(Some(f)), file) == notes_on(files, file),
        notes_on(files.push(None), file) == notes_on(files, file),
        notes_on(Seq::empty(), file).len() == 0,
{
    assert(files.push(Some(f)).drop_last() =~= files);
    assert(files.push(None).drop_last() =~= files);
}

/// A note that is resolved is not listed, and any other is, under its file.
pub proof fn law_resolved_notes_are_not_listed(notes: Seq<crate::ipc::NoteMeta>, i: int)
    requires
        0 <= i < notes.len(),
    ensures
        note_files(notes).len() == notes.len(),
        notes[i].state == ThreadState::Resolved ==> note_files(notes)[i] is None,
        notes[i].state != ThreadState::Resolved ==> note_files(notes)[i] == Some(notes[i].file@),
{
}

// ---- clicks ---------------------------------------------------------------------------

/// A click puts the cursor on its row; a second one soon after it, on the same row,
/// opens what is there. On a heading it does nothing.
pub proof fn law_a_second_click_opens_the_row(a: App, after: App, k: int, activate: bool)
    requires
        a.clicked(after, k, activate),
        0 <= k < a.rows@.len(),
    ensures
        ({
            let row = deep(a.rows@)[k];
            &&& row.can_hold_cursor() && !(row is Dir) ==> after.cursor == k && after.last_click == Some(
                (k as usize, a.now),
            )
            &&& row.can_hold_cursor() && !(row is Dir) && (a.last_click matches Some(c) && c.0 == k && a.now
                - c.1 < DOUBLE_CLICK_MS) ==> activate
            &&& activate ==> (a.last_click matches Some(c) && c.0 == k && a.now - c.1 < DOUBLE_CLICK_MS)
            &&& !row.can_hold_cursor() ==> after == a && !activate
            &&& row is Dir ==> !activate
        }),
{
    reveal(App::clicked);
    assert(deep(a.rows@).len() == a.rows@.len());
    assert(a.rows.len() == a.rows@.len());
}

/// The wheel moves the cursor as the keys do, and while a question is asked the mouse
/// does nothing.
pub proof fn law_the_mouse_waits_for_the_question(a: App, after: App, kind: Mouse, y: u16, activate: bool)
    requires
        a.pointed(after, kind, y, activate),
    ensures
        a.modal is Some ==> after == a && !activate,
        kind is ScrollDown || kind is ScrollUp ==> !activate,
        a.modal is None && kind is ScrollDown ==> after == (App {
            cursor: stepped(deep(a.rows@), a.cursor as int, true) as usize,
            ..a
        }),
        a.modal is None && kind is ScrollUp ==> after == (App {
            cursor: stepped(deep(a.rows@), a.cursor as int, false) as usize,
            ..a
        }),
        kind is Down && y == 0 ==> after == a,
{
    reveal(App::pointed);
}

/// A note is asked for on the file at the cursor, staged or not as its row is, in the
/// working tree's changes alone.
pub proof fn law_a_note_is_asked_for_on_its_side(a: App, after: App)
    requires
        a.note_asked(after),
    ensures
        a.mode == Mode::Files && a.scope == Scope::Worktree ==> (a.at_file() matches Some(q) ==> (
        after.annotate_request matches Some(r) && r.0@ == a.entries@[q.0].path@ && (r.1 <==> q.1
            == Section::Staged))),
        a.mode != Mode::Files || a.scope != Scope::Worktree || a.at_file() is None
            ==> after.annotate_request == a.annotate_request && after.status_msg is Some,
{
    reveal(App::tells);
}

// ---- offers ---------------------------------------------------------------------------

/// Staging, unstaging and discarding are offered on files and directories outside of
/// conflicts, and unstaging only where something is staged there.
pub proof fn law_nothing_is_offered_on_a_conflict(a: App)
    ensures
        a.section_at() is None || a.section_at() == Some(Section::Conflicts) ==> !a.ops().stage && !a.ops().unstage
            && !a.ops().discard,
        (a.section_at() matches Some(s) && s != Section::Conflicts) ==> a.ops().stage && a.ops().discard,
        a.ops().unstage ==> a.target_paths(true).len() > 0,
        a.ops().stage_unstages <==> a.section_at() == Some(Section::Staged),
{
}

/// Committing is offered where something is staged, in the working tree's changes.
pub proof fn law_committing_is_offered_when_something_is_staged(a: App, i: int)
    requires
        0 <= i < a.entries@.len(),
        a.entries@[i].stage == StageState::Staged || a.entries@[i].stage == StageState::Partial,
        a.scope == Scope::Worktree,
    ensures
        a.any_staged(),
        a.some_hint(a.scope == Scope::Worktree && a.any_staged(), Action::Commit, "commit"@) == seq![
            a.hint_for(Action::Commit, "commit"@),
        ],
        exists|k: int|
            0 <= k < a.file_hints().len() && #[trigger] a.file_hints()[k] == a.hint_for(
                Action::Commit,
                "commit"@,
            ),
{
    let s = a.file_hints();
    let ops = a.ops();
    let k: int = 1 + (if ops.stage {
        1int
    } else {
        0
    }) + (if ops.unstage && !ops.stage_unstages {
        1int
    } else {
        0
    }) + (if ops.discard {
        1int
    } else {
        0
    });
    assert(s[k] == a.hint_for(Action::Commit, "commit"@));
}

/// The comparison that is offered is the other one; help and the way out are offered
/// always, last.
pub proof fn law_the_other_comparison_is_offered(a: App)
    ensures
        a.scope == Scope::Branch ==> a.other_scope() == "uncommitted"@,
        a.scope == Scope::Worktree ==> a.other_scope() == "vs "@ + a.base_text(),
        ({
            let s = a.file_hints();
            &&& s.len() >= 4
            &&& s[s.len() - 4] == a.hint_for(Action::ToggleScope, a.other_scope())
            &&& s[s.len() - 3] == a.hint_for(Action::Log, "log"@)
            &&& s[s.len() - 2] == a.hint_for(Action::Help, "help"@)
            &&& s[s.len() - 1] == a.hint_for(Action::Quit, "quit"@)
        }),
{
}

/// The help lists each action that has a key, with that key, in the table's order.
pub proof fn law_help_lists_what_has_a_key(a: App, table: Seq<(Action, Seq<char>)>, x: (Action, Seq<char>))
    ensures
        ({
            let key = crate::keymap::first_text(a.keys.entries(), x.0);
            &&& key.len() > 0 ==> a.help_lines_of(table.push(x)) == a.help_lines_of(table).push(
                help_line(key, x.1),
            )
            &&& key.len() == 0 ==> a.help_lines_of(table.push(x)) == a.help_lines_of(table)
            &&& a.help_lines_of(Seq::empty()).len() == 0
            &&& help_line(key, x.1).spans[1].content == x.1
            &&& help_line(key, x.1).spans[0].content == seq![' '] + crate::text::pad_left(key, 8) + seq![
                ' ',
                ' ',
            ]
        }),
{
    reveal_strlit(" ");
    reveal_strlit("  ");
    assert(" "@ =~= seq![' ']);
    assert("  "@ =~= seq![' ', ' ']);
    assert(table.push(x).drop_last() =~= table);
}

// ---- answers that count ---------------------------------------------------------------

/// A request answers for itself; one for the other side of a file that is staged in
/// part, for another comparison or for another commit does not.
pub proof fn law_a_request_answers_for_itself(a: ReqV, b: ReqV)
    ensures
        a.asks_as(a),
        a.cached != b.cached || a.scope != b.scope || a.commit != b.commit || a.kind != b.kind ==> !a.asks_as(b),
        !same_file(a.file, b.file) ==> !a.asks_as(b),
        a.orig_path is Some != b.orig_path is Some ==> !a.asks_as(b),
{
}

/// A diff that is no longer asked for is dropped; one that could not be made shows why.
/// A closed connection ends the pane, and a new one is greeted.
pub proof fn law_a_stale_diff_is_dropped(a: PreviewApp, after: PreviewApp, event: Event, deeds: Seq<Deed>)
    requires
        a.woken(after, event, deeds),
    ensures
        event matches Event::Diff { req, result } ==> {
            &&& !(a.current matches Some(c) && c.deep_view().asks_as(req.deep_view())) ==> after == a
            &&& (a.current matches Some(c) && c.deep_view().asks_as(req.deep_view())) ==> (
            result matches Ok(d) ==> a.shows(after, d))
            &&& (a.current matches Some(c) && c.deep_view().asks_as(req.deep_view())) ==> (
            result matches Err(m) ==> after.state == State::Error(m) && after.built == a.built)
            &&& deeds.len() == 0
        },
        event is IpcClosed ==> after.should_quit && deeds.len() == 0,
        event is Connected ==> deeds == seq![Deed::Say(ToList::Ready { proto: PROTO })] && after.store == a.store,
        event matches Event::Key(key) ==> a.keyed(after, key),
        event matches Event::Reply(msg) ==> a.answered(after, msg),
        (event matches Event::Ipc { msg, base } && msg is Edit) ==> after == a && deeds.len() == 1 && deeds[0] is Edit,
        (event matches Event::Ipc { msg, base } && msg is GitInPane) ==> after == a && deeds.len() == 1
            && deeds[0] is Git,
{
}

// ---- the box --------------------------------------------------------------------------

/// The box that is being written in stands where it is said to be, whole.
pub proof fn law_the_box_stands_where_it_is_said(base: Seq<LineV>, c: Seq<CardV>, k: int)
    requires
        ascending(c),
        forall|i: int| 0 <= i < c.len() ==> 0 <= (#[trigger] c[i]).anchor <= base.len(),
        base.len() + total_lines(c) <= usize::MAX,
        0 <= k < c.len(),
        c[k].kind is Composer,
        forall|i: int| k < i < c.len() ==> !((#[trigger] c[i]).kind is Composer),
    ensures
        span_of_composer(c) matches Some(s) && {
            &&& s.0 + s.1 <= spliced(base, c).len()
            &&& spliced(base, c).subrange(s.0 as int, s.0 + s.1) == c[k].lines
        },
    decreases c.len(),
{
    let init = c.drop_last();
    lemma_spliced_len(base, c);
    lemma_init(base.len() as int, c);
    lemma_spliced_len(base, init);
    lemma_total_nonneg(init);
    let (doc, before) = (spliced(base, c), spliced(base, init));
    if k == c.len() - 1 {
        let at = last_start(c);
        assert(doc.subrange(at, at + c[k].lines.len()) =~= c[k].lines);
    } else {
        assert(init[k] == c[k]);
        assert forall|i: int| k < i < init.len() implies !((#[trigger] init[i]).kind is Composer) by {
            assert(init[i] == c[i]);
        }
        law_the_box_stands_where_it_is_said(base, init, k);
        lemma_span(init, k);
        assert(c[k].anchor <= c[c.len() - 1].anchor);
        let s = span_of_composer(init)->0;
        let at = last_start(c);
        assert(!(c[c.len() - 1].kind is Composer));
        assert(s.0 + s.1 <= at);
        assert(doc.subrange(s.0 as int, s.0 + s.1) =~= before.subrange(s.0 as int, s.0 + s.1));
    }
}

proof fn lemma_span(c: Seq<CardV>, k: int)
    requires
        0 <= k < c.len(),
        c[k].kind is Composer,
        forall|i: int| k < i < c.len() ==> !((#[trigger] c[i]).kind is Composer),
        forall|i: int| 0 <= i < c.len() ==> 0 <= (#[trigger] c[i]).anchor,
        c[k].anchor + total_lines(c) <= usize::MAX,
    ensures
        span_of_composer(c) matches Some(s) && s.0 + s.1 <= c[k].anchor + total_lines(c),
    decreases c.len(),
{
    let init = c.drop_last();
    lemma_total_nonneg(init);
    if k < c.len() - 1 {
        assert(init[k] == c[k]);
        assert forall|i: int| k < i < init.len() implies !((#[trigger] init[i]).kind is Composer) by {
            assert(init[i] == c[i]);
        }
        assert forall|i: int| 0 <= i < init.len() implies 0 <= (#[trigger] init[i]).anchor by {
            assert(init[i] == c[i]);
        }
        assert(!(c[c.len() - 1].kind is Composer));
        lemma_span(init, k);
    }
}

/// What a message of the list leads to are diffs to be made, those that it asks for, in
/// that order.
pub proof fn law_messages_lead_to_diffs(a: PreviewApp, after: PreviewApp, msg: crate::ipc::ToPreview, base: Option<String>, deeds: Seq<Deed>, i: int)
    requires
        a.woken(after, Event::Ipc { msg, base }, deeds),
        !(msg is Edit) && !(msg is GitInPane),
        0 <= i < deeds.len(),
    ensures
        deeds[i] is Diff,
        a.hears(after, msg, base, crate::preview_tick::diffs_of(deeds)),
        crate::preview_tick::diffs_of(deeds).len() == deeds.len(),
        deeds[i] matches Deed::Diff(req) && crate::preview_tick::diffs_of(deeds)[i] == req.deep_view(),
{
}

} // verus!
