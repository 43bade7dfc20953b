//! What the diff pane does with the events that it is woken by. The run loop
//! performs what these functions ask for and hands the outcome back.

use vstd::prelude::*;
use vstd::std_specs::hash::group_hash_axioms;

use crate::compose::copy_text;
use crate::git::{ChangeKind, Scope};
use crate::git_parse::{first_line, headline};
use crate::git_repo::{words, Ran};
use crate::ipc::{NoteMeta, ToList, ToPreview};
use crate::keymap::copy_strings;
use crate::notes::one_changed;
use crate::path::{is_same_file, join_path, joined, same_file};
use crate::preview::{PopupReq, PreviewApp, ReqV, ShowReq, State};
use crate::reply::{compose_prompt, prompt_text, ReplyMsg, ReplyReq, Retry, DEFAULT_TIMEOUT_MS};
use crate::text::{
    chars_of, concat2, concat3, contains_str, decimal, decimal_of, deep, find_from, group_deep,
    index_of_char, join, join_of, occurs, same, string_of,
};
use crate::thread::{at_id, pending_at, Author, Thread};

verus! {

/// Runs a command on the pane's terminal, which is given up meanwhile. True if
/// it ended well.
pub trait EditorHost {
    fn run(&mut self, cwd: &str, argv: &[String], envs: &[(String, String)]) -> Result<bool, String>;
}

impl ShowReq {
    /// Another request for the same diff.
    pub fn copy(&self) -> (r: ShowReq)
        ensures
            r.deep_view() == self.deep_view(),
    {
        ShowReq {
            file: self.file.as_str().to_owned(),
            orig_path: copy_text(&self.orig_path),
            scope: self.scope,
            cached: self.cached,
            kind: self.kind,
            commit: copy_text(&self.commit),
        }
    }
}

// ---- messages of the list pane ---------------------------------------------------------

impl PreviewApp {
    /// The pane after a diff was asked for.
    pub open spec fn begun(self, req: ShowReq, base: Option<String>) -> PreviewApp {
        PreviewApp {
            current: Some(req),
            base: if req.scope == Scope::Branch && self.base is None {
                base
            } else {
                self.base
            },
            view: crate::docview::DocView {
                scroll: if self.current matches Some(c) && same_file(c.file@, req.file@) {
                    self.view.scroll
                } else {
                    0
                },
                ..self.view
            },
            ..self
        }
    }

    /// The pane after the box was opened on its file.
    pub open spec fn file_noted(self, after: PreviewApp) -> bool {
        match self.current {
            None => after == self,
            Some(req) => {
                &&& self.box_opens(after, false)
                &&& after.pending matches Some(p)
                &&& p.target == crate::layout::Target::New
                &&& crate::compose::bare_anchor(
                    p.anchor,
                    req.file@,
                    0,
                    0,
                    Seq::empty(),
                    req.cached,
                )
            },
        }
    }

    /// The pane after the box was opened on a conversation, if it is there.
    pub open spec fn note_reopened(self, after: PreviewApp, id: u64) -> bool {
        let k = at_id(self.store.threads@, id);
        if k < 0 {
            self.says(after, "that note is gone"@)
        } else {
            let t = self.store.threads@[k];
            let n = crate::thread::newest_pending(t.turns@);
            if n >= 0 {
                self.box_reopens(
                    after,
                    id,
                    t.turns@[n].text@,
                    crate::layout::Target::Edit { id, turn: n as usize },
                )
            } else {
                self.box_reopens(after, id, Seq::empty(), crate::layout::Target::Reply(id))
            }
        }
    }

    /// The pane after a conversation was deleted.
    pub open spec fn note_deleted(self, after: PreviewApp, id: u64) -> bool {
        &&& if at_id(self.store.threads@, id) < 0 {
            &&& after.store.threads@ == self.store.threads@
            &&& after == (PreviewApp { store: after.store, ..self })
        } else {
            &&& after.store.threads@ == crate::thread::without_id(self.store.threads@, id)
            &&& self.changed_to(after)
        }
        &&& after.store.next_id == self.store.next_id
        &&& after.store.same_frame(self.store)
    }

    /// The pane after a conversation was scrolled to, or kept in mind.
    pub open spec fn note_focused(self, after: PreviewApp, id: u64) -> bool {
        if self.note_on_screen(id) {
            &&& after == (PreviewApp { view: after.view, ..self })
            &&& after.view.model() == self.view.model().at_note(id, true, self.cfg.theme)
        } else {
            after == (PreviewApp { pending_focus: Some(id), ..self })
        }
    }

    /// The pane after its conversations were to be sent.
    pub open spec fn send_asked(self, after: PreviewApp) -> bool {
        if exists|i: int|
            0 <= i < self.store.threads@.len() && (#[trigger] self.store.threads@[i]).wants_sending() {
            after == (PreviewApp { popup_request: Some(PopupReq::PickAgent), ..self })
        } else if self.store.threads@.len() == 0 {
            self.says(after, "no threads yet"@)
        } else {
            self.says(after, "nothing unsent — every thread is already with the agent"@)
        }
    }

    /// The pane after the box was called for on a conversation: its file is put
    /// on screen first, where it is not.
    #[verifier::opaque]
    pub open spec fn note_called(self, after: PreviewApp, id: u64, base: Option<String>, diffs: Seq<ReqV>) -> bool {
        let k = at_id(self.store.threads@, id);
        if k < 0 || self.in_shown_file(id) {
            &&& self.note_reopened(after, id)
            &&& diffs.len() == 0
        } else {
            &&& diffs == seq![note_req(self.store.threads@[k])]
            &&& exists|req: ShowReq|
                #![trigger self.begun(req, base)]
                req.deep_view() == note_req(self.store.threads@[k]) && self.begun(
                    req,
                    base,
                ).note_reopened(after, id)
        }
    }

    /// The pane after a message that holds no other one.
    #[verifier::opaque]
    pub open spec fn hears_one(self, after: PreviewApp, msg: ToPreview, base: Option<String>, diffs: Seq<ReqV>) -> bool {
        match msg {
            ToPreview::Show { file, orig_path, scope, cached, kind, commit } => {
                let req = ShowReq { file, orig_path, scope, cached, kind, commit };
                &&& after == self.begun(req, base)
                &&& diffs == seq![req.deep_view()]
            },
            ToPreview::Scroll { delta } => {
                &&& after == (PreviewApp { view: after.view, ..self })
                &&& after.view.model() == self.view.model().scrolled(
                    delta,
                    self.active(),
                    self.cfg.theme,
                )
                &&& diffs.len() == 0
            },
            ToPreview::Page { down, full } => {
                let n = self.view.model().page_rows(full);
                &&& after == (PreviewApp { view: after.view, ..self })
                &&& after.view.model() == self.view.model().scrolled(
                    (if down {
                        n
                    } else {
                        -n
                    }) as i32,
                    self.active(),
                    self.cfg.theme,
                )
                &&& diffs.len() == 0
            },
            ToPreview::Clear => {
                &&& self.cleared(after)
                &&& diffs.len() == 0
            },
            ToPreview::ComposeNote { .. } => false,
            ToPreview::ComposeEditNote { id } => self.note_called(after, id, base, diffs),
            ToPreview::FocusNote { id } => self.note_focused(after, id) && diffs.len() == 0,
            ToPreview::DeleteNote { id } => self.note_deleted(after, id) && diffs.len() == 0,
            ToPreview::SendNotes => self.send_asked(after) && diffs.len() == 0,
            ToPreview::ShowCommitMessage { short, subject, author, date, body } => {
                &&& self.reads(after, short@, subject@, author@, date@, body@)
                &&& diffs.len() == 0
            },
            ToPreview::Quit => after == (PreviewApp { should_quit: true, ..self }) && diffs.len() == 0,
            ToPreview::Edit { .. } => after == self && diffs.len() == 0,
            ToPreview::GitInPane { .. } => after == self && diffs.len() == 0,
        }
    }

    /// The pane after a message of the list pane, and the diffs to be made. A
    /// note to be written brings the diff that it needs.
    pub open spec fn hears(self, after: PreviewApp, msg: ToPreview, base: Option<String>, diffs: Seq<ReqV>) -> bool
        decreases msg,
    {
        match msg {
            ToPreview::ComposeNote { show } => exists|mid: PreviewApp|
                self.hears(mid, *show, base, diffs) && #[trigger] mid.file_noted(after),
            _ => self.hears_one(after, msg, base, diffs),
        }
    }

    /// The pane with nothing to show.
    pub open spec fn cleared(self, after: PreviewApp) -> bool {
        &&& after == (PreviewApp {
            current: None,
            built: None,
            shown_file: None,
            first_change: None,
            view: after.view,
            state: after.state,
            ..self
        })
        &&& after.state matches State::Splash(s)
        &&& s@ == "no file selected"@
        &&& after.view.model() == (crate::docview::ViewV {
            doc: Seq::empty(),
            saved: Seq::empty(),
            scroll: 0,
            ..self.view.model()
        }).rewrapped()
    }

    fn show(&mut self, req: ShowReq, base: Option<String>) -> (r: Vec<ShowReq>)
        requires
            old(self).wf(),
        ensures
            final(self).wf(),
            *final(self) == old(self).begun(req, base),
            deep(r@) == seq![req.deep_view()],
    {
        let mut out: Vec<ShowReq> = Vec::new();
        out.push(req.copy());
        assert(deep(out@) =~= seq![req.deep_view()]);
        self.begin_show(req, base);
        out
    }

    fn call_note(&mut self, id: u64, base: Option<String>) -> (r: Vec<ShowReq>)
        requires
            old(self).wf(),
        ensures
            final(self).wf(),
            final(self).notes_rev == old(self).notes_rev,
            old(self).note_called(*final(self), id, base, deep(r@)),
    {
        broadcast use group_deep;

        proof {
            reveal(PreviewApp::note_called);
        }
        let ghost before = *self;
        match self.show_for_note(id) {
            Some(ToPreview::Show { file, orig_path, scope, cached, kind, commit }) => {
                let req = ShowReq { file, orig_path, scope, cached, kind, commit };
                let ghost asked = req;
                let out: Vec<ShowReq> = self.show(req, base);
                let ghost mid = *self;
                if !self.begin_edit_note(id) {
                    self.flash("that note is gone");
                }
                proof {
                    let k = at_id(before.store.threads@, id);
                    assert(asked.deep_view() == note_req(before.store.threads@[k]));
                    assert(mid == before.begun(asked, base));
                    assert(mid.note_reopened(*self, id));
                }
                out
            },
            _ => {
                if !self.begin_edit_note(id) {
                    self.flash("that note is gone");
                }
                Vec::new()
            },
        }
    }

    fn ask_to_send(&mut self)
        requires
            old(self).wf(),
        ensures
            final(self).wf(),
            old(self).send_asked(*final(self)),
    {
        if self.store.has_unsent() {
            self.popup_request = Some(PopupReq::PickAgent);
        } else if self.store.is_empty() {
            self.flash("no threads yet");
        } else {
            self.flash("nothing unsent — every thread is already with the agent");
        }
    }

    fn on_one(&mut self, msg: ToPreview, base: Option<String>) -> (r: Vec<ShowReq>)
        requires
            old(self).wf(),
            old(self).notes_rev < u64::MAX,
            !(msg is ComposeNote),
        ensures
            final(self).wf(),
            old(self).hears_one(*final(self), msg, base, deep(r@)),
    {
        broadcast use group_deep;

        proof {
            reveal(PreviewApp::hears_one);
        }
        match msg {
            ToPreview::Show { file, orig_path, scope, cached, kind, commit } => {
                return self.show(ShowReq { file, orig_path, scope, cached, kind, commit }, base);
            },
            ToPreview::ComposeEditNote { id } => {
                return self.call_note(id, base);
            },
            ToPreview::Scroll { delta } => self.scroll_by(delta),
            ToPreview::Page { down, full } => self.page(down, full),
            ToPreview::Clear => self.clear(),
            ToPreview::FocusNote { id } => self.focus_note(id),
            ToPreview::DeleteNote { id } => self.delete_note(id),
            ToPreview::SendNotes => self.ask_to_send(),
            ToPreview::ShowCommitMessage { short, subject, author, date, body } => {
                self.show_commit_message(
                    short.as_str(),
                    subject.as_str(),
                    author.as_str(),
                    date.as_str(),
                    body.as_str(),
                )
            },
            ToPreview::Quit => {
                self.should_quit = true;
            },
            ToPreview::Edit { .. } => {},
            ToPreview::GitInPane { .. } => {},
            ToPreview::ComposeNote { .. } => {},
        }
        Vec::new()
    }

    /// A message of the list pane. `base` is the branch's base, where it had to
    /// be found. The diffs that come back are to be made.
    pub fn on_ipc(&mut self, msg: ToPreview, base: Option<String>) -> (r: Vec<ShowReq>)
        requires
            old(self).wf(),
            old(self).notes_rev < u64::MAX,
        ensures
            final(self).wf(),
            old(self).hears(*final(self), msg, base, deep(r@)),
        decreases msg,
    {
        match msg {
            ToPreview::ComposeNote { show } => {
                let inner: ToPreview = *show;
                let out: Vec<ShowReq> = self.on_ipc(inner, base);
                let ghost mid = *self;
                self.begin_file_note();
                assert(mid.file_noted(*self));
                out
            },
            other => self.on_one(other, base),
        }
    }
}

/// The request that puts a conversation's file on screen.
pub open spec fn note_req(t: Thread) -> ReqV {
    ReqV {
        file: t.anchor.file@,
        orig_path: None,
        scope: Scope::Worktree,
        cached: t.anchor.cached,
        kind: ChangeKind::Modified,
        commit: None,
    }
}

// ---- asking agents -----------------------------------------------------------------------

#[verifier::ext_equal]
pub struct AskV {
    pub pane: Seq<char>,
    pub id: u64,
    pub prompt: Seq<char>,
    pub turns: Seq<int>,
    pub timeout_ms: u64,
}

impl DeepView for ReplyReq {
    type V = AskV;

    open spec fn deep_view(&self) -> AskV {
        AskV {
            pane: self.pane@,
            id: self.id,
            prompt: self.prompt@,
            turns: Seq::new(self.turns@.len(), |i: int| self.turns@[i] as int),
            timeout_ms: self.timeout_ms,
        }
    }
}

/// One question for each conversation that has something unsent and is not
/// being asked about already.
pub open spec fn questions_for(threads: Seq<Thread>, busy: Set<u64>, root: Seq<char>, pane: Seq<char>) -> Seq<AskV>
    decreases threads.len(),
{
    if threads.len() == 0 {
        Seq::empty()
    } else {
        let s = questions_for(threads.drop_last(), busy, root, pane);
        let t = threads.last();
        if t.wants_sending() && !busy.contains(t.id) {
            s.push(
                AskV {
                    pane,
                    id: t.id,
                    prompt: prompt_text(root, t),
                    turns: pending_at(t.turns@),
                    timeout_ms: DEFAULT_TIMEOUT_MS,
                },
            )
        } else {
            s
        }
    }
}

/// What is said where there is nothing to ask.
pub open spec fn nothing_to_ask(busy: nat) -> Seq<char> {
    if busy == 0 {
        "nothing unsent"@
    } else {
        "already asking about "@ + decimal(busy) + " thread(s)"@
    }
}

pub open spec fn asking_words(pane: Seq<char>, n: nat) -> Seq<char> {
    "asking "@ + pane + " about "@ + decimal(n) + " thread"@ + (if n == 1 {
        ""@
    } else {
        "s"@
    }) + "…"@
}

impl PreviewApp {
    fn questions_of(&self, pane: &str) -> (r: Vec<ReplyReq>)
        ensures
            deep(r@) == questions_for(
                self.store.threads@,
                self.in_flight@,
                self.repo.root@,
                pane@,
            ),
    {
        broadcast use {group_deep, group_hash_axioms};

        let mut out: Vec<ReplyReq> = Vec::new();
        let mut i: usize = 0;
        while i < self.store.threads.len()
            invariant
                i <= self.store.threads@.len(),
                deep(out@) == questions_for(
                    self.store.threads@.take(i as int),
                    self.in_flight@,
                    self.repo.root@,
                    pane@,
                ),
            decreases self.store.threads@.len() - i,
        {
            assert(self.store.threads@.take(i + 1).drop_last() =~= self.store.threads@.take(i as int));
            let t: &Thread = &self.store.threads[i];
            if t.has_unsent() && !self.in_flight.contains(&t.id) {
                let req = ReplyReq {
                    pane: pane.to_owned(),
                    id: t.id,
                    prompt: compose_prompt(self.repo.root.as_str(), t),
                    turns: t.unsent_indices(),
                    timeout_ms: DEFAULT_TIMEOUT_MS,
                };
                assert(req.deep_view().turns =~= pending_at(t.turns@));
                out.push(req);
            }
            i += 1;
        }
        out
    }

    /// The questions to put to the agent on a pane. Where there are none, the
    /// user is told so.
    pub fn dispatch(&mut self, pane: &str) -> (r: Vec<ReplyReq>)
        ensures
            deep(r@) == questions_for(
                old(self).store.threads@,
                old(self).in_flight@,
                old(self).repo.root@,
                pane@,
            ),
            if r@.len() > 0 {
                *final(self) == *old(self)
            } else {
                old(self).says(*final(self), nothing_to_ask(old(self).in_flight@.len()))
            },
    {
        broadcast use group_hash_axioms;

        let out: Vec<ReplyReq> = self.questions_of(pane);
        assert(deep(out@).len() == out@.len());
        if out.len() == 0 {
            let busy: usize = self.in_flight.len();
            if busy == 0 {
                self.flash("nothing unsent");
            } else {
                let msg: String = concat3(
                    "already asking about ",
                    decimal_of(busy as u64).as_str(),
                    " thread(s)",
                );
                self.flash(msg.as_str());
            }
        }
        out
    }

    /// The first `sent` questions about these conversations were handed to the
    /// worker. If not all were, the worker is gone.
    pub fn dispatched(&mut self, pane: &str, ids: &Vec<u64>, sent: usize)
        requires
            old(self).wf(),
            old(self).notes_rev < u64::MAX,
            sent <= ids@.len(),
        ensures
            final(self).wf(),
            final(self).in_flight@ == joined_ids(old(self).in_flight@, ids@.take(sent as int)),
            final(self).flash matches Some(f) && f.1 == old(self).now && f.0@ == if sent < ids@.len() {
                "the reply worker is gone — restart the view"@
            } else {
                asking_words(pane@, ids@.len())
            },
            if sent < ids@.len() {
                *final(self) == (PreviewApp {
                    in_flight: final(self).in_flight,
                    flash: final(self).flash,
                    ..*old(self)
                })
            } else {
                &&& final(self).store == old(self).store
                &&& (PreviewApp {
                    in_flight: final(self).in_flight,
                    flash: final(self).flash,
                    ..*old(self)
                }).changed_to(*final(self))
            },
    {
        broadcast use group_hash_axioms;

        let mut i: usize = 0;
        while i < sent
            invariant
                i <= sent <= ids@.len(),
                self.wf(),
                *self == (PreviewApp { in_flight: self.in_flight, ..*old(self) }),
                self.in_flight@ == joined_ids(old(self).in_flight@, ids@.take(i as int)),
            decreases sent - i,
        {
            assert(ids@.take(i + 1).drop_last() =~= ids@.take(i as int));
            self.in_flight.insert(ids[i]);
            i += 1;
        }
        if sent < ids.len() {
            self.flash("the reply worker is gone — restart the view");
            return;
        }
        let n: String = decimal_of(ids.len() as u64);
        let head: String = concat3("asking ", pane, " about ");
        let body: String = concat3(head.as_str(), n.as_str(), " thread");
        let msg: String = concat3(body.as_str(), if ids.len() == 1 { "" } else { "s" }, "…");
        self.flash(msg.as_str());
        self.redraw_threads();
    }

    /// The pane after a message of the reply worker.
    pub open spec fn answered(self, after: PreviewApp, msg: ReplyMsg) -> bool {
        let k = at_id(self.store.threads@, msg.of());
        match msg {
            ReplyMsg::Delivered { id, turns, agent } => if k < 0 {
                after == self
            } else {
                &&& one_changed(self.store, after.store, k)
                &&& exists|updated: i64|
                    self.store.threads@[k].sent_to(after.store.threads@[k], turns@, *agent, updated)
                &&& self.changed_to(after)
            },
            ReplyMsg::Replied { id, text } => {
                let p = PreviewApp { in_flight: after.in_flight, flash: after.flash, ..self };
                &&& after.in_flight@ == self.in_flight@.remove(id)
                &&& after.flash matches Some(f)
                &&& f.1 == self.now
                &&& f.0@ == "thread "@ + decimal(id as nat) + " answered"@
                &&& if k < 0 {
                    after == p
                } else {
                    &&& one_changed(self.store, after.store, k)
                    &&& exists|at: i64, updated: i64|
                        self.store.threads@[k].grown_to(
                            after.store.threads@[k],
                            Author::Agent,
                            text,
                            at,
                            updated,
                        )
                    &&& p.changed_to(after)
                }
            },
            ReplyMsg::Failed { id, turns, err, retry } => {
                let p = PreviewApp { in_flight: after.in_flight, flash: after.flash, ..self };
                &&& after.in_flight@ == self.in_flight@.remove(id)
                &&& after.flash matches Some(f)
                &&& f.1 == self.now
                &&& f.0@ == "thread "@ + decimal(id as nat) + ": "@ + err@
                &&& if k < 0 {
                    after == p
                } else {
                    &&& one_changed(self.store, after.store, k)
                    &&& self.store.threads@[k].failed_to(
                        after.store.threads@[k],
                        turns@,
                        err@,
                        retry == Retry::Pending,
                    )
                    &&& p.changed_to(after)
                }
            },
        }
    }

    /// A message of the reply worker. Its last one frees the conversation to be
    /// asked about again.
    pub fn on_reply(&mut self, msg: ReplyMsg)
        requires
            old(self).wf(),
            old(self).notes_rev < u64::MAX,
        ensures
            final(self).wf(),
            old(self).answered(*final(self), msg),
    {
        broadcast use group_hash_axioms;

        if msg.is_terminal() {
            self.in_flight.remove(&msg.id());
        }
        match msg {
            ReplyMsg::Delivered { id, turns, agent } => {
                self.mark_turns_sent(id, turns.as_slice(), *agent);
            },
            ReplyMsg::Replied { id, text } => {
                let line: String = concat3("thread ", decimal_of(id).as_str(), " answered");
                self.flash(line.as_str());
                self.append_reply(id, text);
            },
            ReplyMsg::Failed { id, turns, err, retry } => {
                let head: String = concat3("thread ", decimal_of(id).as_str(), ": ");
                let line: String = concat2(head.as_str(), err.as_str());
                self.flash(line.as_str());
                self.mark_thread_failed(id, turns.as_slice(), err.as_str(), retry == Retry::Pending);
            },
        }
    }

    // ---- each round of the loop ------------------------------------------------------------

    /// What the list pane is to be told of key presses in this pane.
    pub fn take_requests(&mut self) -> (r: Vec<ToList>)
        ensures
            *final(self) == (PreviewApp {
                notes_view_request: false,
                edit_request: false,
                ..*old(self)
            }),
            r@ == (if old(self).notes_view_request {
                seq![ToList::ShowNotesView]
            } else {
                seq![]
            }) + (if old(self).edit_request {
                seq![ToList::EditRequest]
            } else {
                seq![]
            }),
    {
        let mut out: Vec<ToList> = Vec::new();
        if self.notes_view_request {
            self.notes_view_request = false;
            out.push(ToList::ShowNotesView);
        }
        if self.edit_request {
            self.edit_request = false;
            out.push(ToList::EditRequest);
        }
        out
    }

    /// All conversations for the list pane, where it is there and has not been
    /// told since they changed. Nothing counts as told while it is not there.
    pub fn notes_to_tell(&self, connected: bool, told: u64) -> (r: Option<ToList>)
        ensures
            match r {
                None => !connected || self.notes_rev == told,
                Some(m) => {
                    &&& connected && self.notes_rev != told
                    &&& m matches ToList::Notes { notes }
                    &&& notes@.len() == self.store.threads@.len()
                    &&& forall|i: int|
                        0 <= i < notes@.len() ==> self.store.threads@[i].told_as(
                            #[trigger] notes@[i],
                        )
                },
            },
    {
        if !connected || self.notes_rev == told {
            return None;
        }
        let mut notes: Vec<NoteMeta> = Vec::new();
        let mut i: usize = 0;
        while i < self.store.threads.len()
            invariant
                i <= self.store.threads@.len(),
                notes@.len() == i,
                forall|k: int| 0 <= k < i ==> self.store.threads@[k].told_as(#[trigger] notes@[k]),
            decreases self.store.threads@.len() - i,
        {
            notes.push(self.store.threads[i].meta());
            i += 1;
        }
        Some(ToList::Notes { notes })
    }

    /// Whether the agent picker is to be opened now. It waits while another
    /// popup is open.
    pub fn take_popup(&mut self, popup_open: bool) -> (r: bool)
        ensures
            r == (old(self).popup_request is Some && !popup_open),
            *final(self) == (PreviewApp {
                popup_request: if r {
                    None
                } else {
                    old(self).popup_request
                },
                ..*old(self)
            }),
    {
        if self.popup_request.is_some() && !popup_open {
            self.popup_request = None;
            true
        } else {
            false
        }
    }

    fn count_unsent(&self) -> (r: usize)
        ensures
            r == unsent_count(self.store.threads@),
            r <= self.store.threads@.len(),
    {
        let mut n: usize = 0;
        let mut i: usize = 0;
        while i < self.store.threads.len()
            invariant
                n <= i <= self.store.threads@.len(),
                n == unsent_count(self.store.threads@.take(i as int)),
            decreases self.store.threads@.len() - i,
        {
            assert(self.store.threads@.take(i + 1).drop_last() =~= self.store.threads@.take(i as int));
            if self.store.threads[i].has_unsent() {
                n += 1;
            }
            i += 1;
        }
        assert(self.store.threads@.take(i as int) =~= self.store.threads@);
        n
    }

    /// The agent picker: its question, its width and its height. None where no
    /// agent is there to be picked.
    pub fn agent_picker(&mut self, agents: usize) -> (r: Option<(String, u16, u16)>)
        ensures
            if agents == 0 {
                r is None && old(self).says(*final(self), "no agent panes in this workspace"@)
            } else {
                &&& *final(self) == *old(self)
                &&& r matches Some(p)
                &&& p.0@ == "send "@ + decimal(unsent_count(old(self).store.threads@)) + " unsent turn(s) to…"@
                &&& p.1 == 74
                &&& p.2 == if agents < 8 {
                    agents + 6
                } else {
                    14
                }
            },
    {
        if agents == 0 {
            self.flash("no agent panes in this workspace");
            return None;
        }
        let n: String = decimal_of(self.count_unsent() as u64);
        let height: u16 = if agents < 8 {
            (agents + 6) as u16
        } else {
            14
        };
        Some((concat3("send ", n.as_str(), " unsent turn(s) to…"), 74, height))
    }

    /// The agent picker could not be opened.
    pub fn picker_failed(&mut self)
        ensures
            old(self).says(*final(self), "couldn't open the agent picker (see debug log)"@),
    {
        self.flash("couldn't open the agent picker (see debug log)");
    }

    // ---- commands in the pane ----------------------------------------------------------------

    /// The editor's command line: the configured one, a control socket for
    /// nvim, the first changed line where the diff is of this file, the file.
    pub open spec fn editor_words(self, file: Seq<char>, server: Option<Seq<char>>) -> Seq<Seq<char>> {
        let e = deep(self.cfg.editor@);
        e + (match server {
            Some(s) if e.len() > 0 && occurs(e[0], "nvim"@) => seq!["--listen"@, s],
            _ => seq![],
        }) + (match (self.current, self.first_change) {
            (Some(c), Some(n)) if same_file(c.file@, file) => seq!["+"@ + decimal(n as nat)],
            _ => seq![],
        }) + seq![joined(self.repo.root@, file)]
    }

    pub fn editor_argv(&self, file: &str, server: Option<&str>) -> (r: Vec<String>)
        ensures
            deep(r@) == self.editor_words(
                file@,
                match server {
                    Some(s) => Some(s@),
                    None => None,
                },
            ),
    {
        broadcast use group_deep;

        let mut argv: Vec<String> = copy_strings(&self.cfg.editor);
        let ghost e = deep(self.cfg.editor@);
        assert(argv@.len() == e.len());
        match server {
            Some(s) => {
                if argv.len() > 0 {
                    assert(deep(argv@)[0] == argv@[0]@);
                    if contains_str(argv[0].as_str(), "nvim") {
                        argv.push("--listen".to_owned());
                        argv.push(s.to_owned());
                    }
                }
            },
            None => {},
        }
        let same_file: bool = match &self.current {
            Some(c) => is_same_file(c.file.as_str(), file),
            None => false,
        };
        if same_file {
            match self.first_change {
                Some(n) => {
                    argv.push(concat2("+", decimal_of(n as u64).as_str()));
                },
                None => {},
            }
        }
        argv.push(join_path(self.repo.root.as_str(), file));
        assert(deep(argv@) =~= self.editor_words(
            file@,
            match server {
                Some(s) => Some(s@),
                None => None,
            },
        ));
        argv
    }

    /// A git command line for this repository.
    pub fn git_in_pane_argv(&self, argv: &Vec<String>) -> (r: Vec<String>)
        ensures
            deep(r@) == seq!["git"@, "-C"@, self.repo.root@] + deep(argv@),
    {
        broadcast use group_deep;

        let mut full: Vec<String> = words(&["git", "-C", self.repo.root.as_str()]);
        let mut rest: Vec<String> = copy_strings(argv);
        full.append(&mut rest);
        assert(deep(full@) =~= seq!["git"@, "-C"@, self.repo.root@] + deep(argv@));
        full
    }

    /// What git should use as its editor, where the user has not said.
    pub fn git_editor(&self, in_env: bool, in_git: bool) -> (r: Option<String>)
        ensures
            if in_env || in_git {
                r is None
            } else {
                r matches Some(e) && e@ == join(deep(self.cfg.editor@), " "@)
            },
    {
        if in_env || in_git {
            None
        } else {
            Some(join_of(self.cfg.editor.as_slice(), " "))
        }
    }

    /// What git is told of an editor, where the user has not said.
    pub fn git_env(&self, in_env: bool, in_git: bool) -> (r: Vec<(String, String)>)
        ensures
            deep(r@) == if in_env || in_git {
                Seq::<(Seq<char>, Seq<char>)>::empty()
            } else {
                seq![("GIT_EDITOR"@, join(deep(self.cfg.editor@), " "@))]
            },
    {
        broadcast use group_deep;

        let mut out: Vec<(String, String)> = Vec::new();
        match self.git_editor(in_env, in_git) {
            Some(e) => {
                out.push(("GIT_EDITOR".to_owned(), e));
                assert(deep(out@) =~= seq![("GIT_EDITOR"@, e@)]);
            },
            None => {},
        }
        out
    }

    /// What came of a command in the pane. One that could not be run is shown
    /// in place of the diff.
    pub fn suspended(&mut self, ran: Result<bool, String>) -> (r: bool)
        ensures
            match ran {
                Ok(ok) => r == ok && *final(self) == *old(self),
                Err(e) => {
                    &&& !r
                    &&& *final(self) == (PreviewApp { state: final(self).state, ..*old(self) })
                    &&& final(self).state matches State::Error(m)
                    &&& m@ == headline(e@)
                },
            },
    {
        match ran {
            Ok(ok) => ok,
            Err(e) => {
                self.state = State::Error(first_line(e.as_str()));
                false
            },
        }
    }

    /// Run a command in the pane, in the repository's root. What the host makes of
    /// it decides: whether it ended well, or that it could not be run, which is
    /// shown in place of the diff.
    pub fn run_suspended<H: EditorHost>(&mut self, argv: &[String], envs: &[(String, String)], host: &mut H) -> (r: bool)
        ensures
            *final(self) == (PreviewApp { state: final(self).state, ..*old(self) }),
            exists|h: &mut H, cwd: &str, ran: Result<bool, String>|
                {
                    &&& cwd@ == old(self).repo.root@
                    &&& #[trigger] call_ensures(H::run, (h, cwd, argv, envs), ran)
                    &&& match ran {
                        Ok(ok) => r == ok && final(self).state == old(self).state,
                        Err(e) => !r && (final(self).state matches State::Error(m) && m@ == headline(e@)),
                    }
                },
    {
        let cwd: &str = self.repo.root.as_str();
        let ghost at = cwd;
        let ran: Result<bool, String> = host.run(cwd, argv, envs);
        let ghost done = ran;
        assert(exists|h: &mut H| call_ensures(H::run, (h, at, argv, envs), done));
        self.suspended(ran)
    }
}

/// The ids of a set and of a list, each once.
pub open spec fn joined_ids(s: Set<u64>, more: Seq<u64>) -> Set<u64>
    decreases more.len(),
{
    if more.len() == 0 {
        s
    } else {
        joined_ids(s, more.drop_last()).insert(more.last())
    }
}

pub open spec fn unsent_count(threads: Seq<Thread>) -> nat
    decreases threads.len(),
{
    if threads.len() == 0 {
        0
    } else {
        unsent_count(threads.drop_last()) + if threads.last().wants_sending() {
            1nat
        } else {
            0nat
        }
    }
}

/// The pane that the user picked in the agent picker, if any.
pub open spec fn picked_pane(answer: Seq<char>) -> Option<Seq<char>> {
    let k = index_of_char(answer, '\t');
    if answer == "cancel"@ || k < 0 || k >= answer.len() {
        None
    } else {
        Some(answer.take(k))
    }
}

pub fn picked(answer: &str) -> (r: Option<String>)
    ensures
        r.deep_view() == picked_pane(answer@),
{
    if same(answer, "cancel") {
        return None;
    }
    let v: Vec<char> = chars_of(answer);
    let k: usize = find_from(v.as_slice(), 0, '\t');
    proof {
        assert(v@.skip(0) =~= v@);
    }
    if k < v.len() {
        let s: String = string_of(v.as_slice(), 0, k);
        assert(s@ =~= answer@.take(k as int));
        Some(s)
    } else {
        None
    }
}

/// Whether git has an editor of its own, by the answer to being asked for it.
pub fn has_core_editor(ran: &Ran) -> (r: bool)
    ensures
        r == (ran matches Ok(out) && out.ok && out.stdout@.len() > 0),
{
    match ran {
        Ok(out) => out.ok && out.stdout.len() > 0,
        Err(_) => false,
    }
}

pub fn core_editor_args() -> (r: Vec<String>)
    ensures
        deep(r@) == seq!["config"@, "--get"@, "core.editor"@],
{
    let r: Vec<String> = words(&["config", "--get", "core.editor"]);
    assert(deep(r@) =~= seq!["config"@, "--get"@, "core.editor"@]);
    r
}

// ---- contents ---------------------------------------------------------------------------

/// Where one side of a diff comes from.
#[derive(Debug, PartialEq, Eq)]
pub enum Source {
    /// A file at a revision; an empty one where the file does not exist there.
    At { rev: String, path: String },
    /// Our side of a conflict; where there is none, the file at HEAD.
    Ours { path: String },
    /// A file on disk; an empty one where it cannot be read.
    Disk { path: String },
}

/// The next read of a side.
#[derive(Debug, PartialEq, Eq)]
pub enum Fetch {
    At { rev: String, path: String },
    Disk { path: String },
    Done(Result<String, String>),
}

/// The first read of a side. Our side of a conflict is in the index.
pub fn first_read(source: &Source) -> (r: Fetch)
    ensures
        match *source {
            Source::At { rev, path } => r matches Fetch::At { rev: v, path: p } && v@ == rev@ && p@
                == path@,
            Source::Ours { path } => r matches Fetch::At { rev: v, path: p } && v@ == ":2"@ && p@
                == path@,
            Source::Disk { path } => r matches Fetch::Disk { path: p } && p@ == path@,
        },
{
    match source {
        Source::At { rev, path } => Fetch::At {
            rev: rev.as_str().to_owned(),
            path: path.as_str().to_owned(),
        },
        Source::Ours { path } => Fetch::At { rev: ":2".to_owned(), path: path.as_str().to_owned() },
        Source::Disk { path } => Fetch::Disk { path: path.as_str().to_owned() },
    }
}

/// What follows the first read of a side: our side of a conflict that is not in
/// the index is read at HEAD.
pub fn next_read(source: &Source, read: Result<Option<String>, String>) -> (r: Fetch)
    ensures
        match (*source, read) {
            (Source::Ours { path }, Ok(None)) => r matches Fetch::At { rev, path: p } && rev@
                == "HEAD"@ && p@ == path@,
            (_, Ok(Some(t))) => r == Fetch::Done(Ok(t)),
            (_, Ok(None)) => r matches Fetch::Done(Ok(t)) && t@.len() == 0,
            (_, Err(e)) => r matches Fetch::Done(Err(m)) && m@ == headline(e@),
        },
{
    if let Source::Ours { path } = source {
        if let Ok(None) = &read {
            return Fetch::At { rev: "HEAD".to_owned(), path: path.as_str().to_owned() };
        }
    }
    Fetch::Done(side_text(read))
}

pub open spec fn is_at(s: Source, rev: Seq<char>, path: Seq<char>) -> bool {
    s matches Source::At { rev: r, path: p } && r@ == rev && p@ == path
}

pub open spec fn is_disk(s: Source, path: Seq<char>) -> bool {
    s matches Source::Disk { path: p } && p@ == path
}

/// The two sides of a request: a commit against its parent; the merge base
/// against the disk; HEAD against the index; our side of a conflict against the
/// disk; the index against the disk.
pub open spec fn sides(req: ReqV, merge_base: Seq<char>, old_side: Source, new_side: Source) -> bool {
    let before = match req.orig_path {
        Some(p) => p,
        None => req.file,
    };
    match req.commit {
        Some(sha) => is_at(old_side, sha + "^"@, before) && is_at(new_side, sha, req.file),
        None => match req.scope {
            Scope::Branch => is_at(old_side, merge_base, before) && is_disk(new_side, req.file),
            Scope::Worktree => if req.cached {
                is_at(old_side, "HEAD"@, before) && is_at(new_side, ":0"@, req.file)
            } else if req.kind == ChangeKind::Conflicted {
                (old_side matches Source::Ours { path } && path@ == req.file) && is_disk(
                    new_side,
                    req.file,
                )
            } else {
                is_at(old_side, ":0"@, req.file) && is_disk(new_side, req.file)
            },
        },
    }
}

/// Whether the merge base has to be known.
pub fn needs_merge_base(req: &ShowReq) -> (r: bool)
    ensures
        r == (req.commit is None && req.scope == Scope::Branch),
{
    req.commit.is_none() && req.scope == Scope::Branch
}

/// The merge base that was found for this HEAD, if it was.
pub fn cached_base(cache: &Option<(String, String)>, head: &str) -> (r: Option<String>)
    ensures
        r.deep_view() == match *cache {
            Some(c) if c.0@ == head@ => Some(c.1@),
            _ => None,
        },
{
    match cache {
        Some(c) => {
            if same(c.0.as_str(), head) {
                Some(c.1.as_str().to_owned())
            } else {
                None
            }
        },
        None => None,
    }
}

/// Where the two sides of a diff come from.
pub fn fetch_contents(req: &ShowReq, merge_base: &str) -> (r: (Source, Source))
    ensures
        sides(req.deep_view(), merge_base@, r.0, r.1),
{
    let file: &str = req.file.as_str();
    let before: &str = match &req.orig_path {
        Some(p) => p.as_str(),
        None => file,
    };
    match &req.commit {
        Some(sha) => (
            Source::At { rev: concat2(sha.as_str(), "^"), path: before.to_owned() },
            Source::At { rev: sha.as_str().to_owned(), path: file.to_owned() },
        ),
        None => {
            if req.scope == Scope::Branch {
                (
                    Source::At { rev: merge_base.to_owned(), path: before.to_owned() },
                    Source::Disk { path: file.to_owned() },
                )
            } else if req.cached {
                (
                    Source::At { rev: "HEAD".to_owned(), path: before.to_owned() },
                    Source::At { rev: ":0".to_owned(), path: file.to_owned() },
                )
            } else if req.kind == ChangeKind::Conflicted {
                (Source::Ours { path: file.to_owned() }, Source::Disk { path: file.to_owned() })
            } else {
                (
                    Source::At { rev: ":0".to_owned(), path: file.to_owned() },
                    Source::Disk { path: file.to_owned() },
                )
            }
        },
    }
}

/// One side's text, by what came of reading it: an empty one where there is no
/// such file, the first line of what went wrong where git could not be run.
pub fn side_text(read: Result<Option<String>, String>) -> (r: Result<String, String>)
    ensures
        match read {
            Ok(Some(t)) => r == Ok::<String, String>(t),
            Ok(None) => r matches Ok(t) && t@.len() == 0,
            Err(e) => r matches Err(m) && m@ == headline(e@),
        },
{
    match read {
        Ok(Some(t)) => Ok(t),
        Ok(None) => Ok(String::new()),
        Err(e) => Err(first_line(e.as_str())),
    }
}

// ---- laws ----------------------------------------------------------------------------------

/// The conversations that questions are about.
pub open spec fn asked_ids(q: Seq<AskV>) -> Seq<u64> {
    Seq::new(q.len(), |i: int| q[i].id)
}

/// Once its questions are with the worker, sending again asks nothing: no
/// question is put twice while it is being answered.
pub proof fn law_second_send_asks_nothing(threads: Seq<Thread>, busy: Set<u64>, root: Seq<char>, pane: Seq<char>, now_busy: Set<u64>)
    requires
        forall|id: u64| busy.contains(id) ==> now_busy.contains(id),
        forall|id: u64|
            asked_ids(questions_for(threads, busy, root, pane)).contains(id) ==> now_busy.contains(id),
    ensures
        questions_for(threads, now_busy, root, pane).len() == 0,
    decreases threads.len(),
{
    if threads.len() > 0 {
        let init = threads.drop_last();
        let q0 = questions_for(init, busy, root, pane);
        let q = questions_for(threads, busy, root, pane);
        let t = threads.last();
        assert forall|id: u64| asked_ids(q0).contains(id) implies now_busy.contains(id) by {
            let k = choose|k: int| 0 <= k < asked_ids(q0).len() && asked_ids(q0)[k] == id;
            assert(q[k] == q0[k]);
            assert(asked_ids(q)[k] == id);
        }
        law_second_send_asks_nothing(init, busy, root, pane, now_busy);
        if t.wants_sending() && !now_busy.contains(t.id) {
            assert(!busy.contains(t.id));
            assert(asked_ids(q)[q.len() - 1] == t.id);
        }
    }
}

/// What is handed to the worker is busy afterwards, and what was busy stays so:
/// nothing else is.
pub proof fn law_dispatched_is_busy(s: Set<u64>, more: Seq<u64>, id: u64)
    ensures
        joined_ids(s, more).contains(id) <==> s.contains(id) || more.contains(id),
    decreases more.len(),
{
    if more.len() > 0 {
        let init = more.drop_last();
        law_dispatched_is_busy(s, init, id);
        assert(more =~= init.push(more.last()));
        assert(more.contains(id) <==> init.contains(id) || more.last() == id) by {
            assert(more[more.len() - 1] == more.last());
            if init.contains(id) {
                let k = init.index_of(id);
                assert(more[k] == id);
            }
            if more.contains(id) && more.last() != id {
                let k = more.index_of(id);
                assert(init[k] == id);
            }
        }
    }
}

/// A note that the list asks for lands on the file that the list had selected,
/// whatever was on screen before, and that file's diff is asked for.
pub proof fn law_note_lands_on_its_file(before: PreviewApp, after: PreviewApp, msg: ToPreview, base: Option<String>, diffs: Seq<ReqV>)
    requires
        msg matches ToPreview::ComposeNote { show } && *show is Show,
        before.hears(after, msg, base, diffs),
    ensures
        ({
            let show = *(msg->ComposeNote_show);
            &&& after.composer is Some
            &&& after.pending matches Some(p)
            &&& p.anchor.file@ == show->Show_file@
            &&& p.anchor.cached == show->Show_cached
            &&& diffs.len() == 1
            &&& diffs[0].file == show->Show_file@
        }),
{
    reveal(PreviewApp::hears_one);
    let show = *(msg->ComposeNote_show);
    reveal_with_fuel(PreviewApp::hears, 2);
    let mid = choose|mid: PreviewApp|
        before.hears(mid, show, base, diffs) && #[trigger] mid.file_noted(after);
    assert(before.hears_one(mid, show, base, diffs));
}

} // verus!
