//! The box that a note is written in: opening it, and what becomes of its text;
//! and the keys of the diff pane.

use vstd::prelude::*;
use vstd::std_specs::hash::group_hash_axioms;

use crate::card::{box_width, card_text_width, MIN_WIDTH};
use crate::docview::{most, thread_meant, DocView, ViewV};
use crate::git::{ChangeKind, Scope};
use crate::ipc::ToPreview;
use crate::keymap::{Action, Key, KeyCode};
use crate::layout::Target;
use crate::notes::{
    lemma_one_changed_wf, lemma_pushed_wf, new_numbers, note_range, one_changed, range_of_numbers,
    snippet, SNIPPET_LINES,
};
use crate::path::{is_same_file, same_file};
use crate::preview::{card_width, Composer, Outcome, Pending, PopupReq, PreviewApp};
use crate::text::{blank, group_deep, is_blank, lines, lines_of};
use crate::textarea::{AreaV, TextArea};
use crate::thread::{
    at_id, lemma_newest_pending, newest_pending, now_epoch, Anchor, Author, Thread, ThreadStore,
    Turn,
};

verus! {

/// An anchor on a file that has not been stamped yet.
pub open spec fn bare_anchor(a: Anchor, file: Seq<char>, start: u32, end: u32, text: Seq<char>, cached: bool) -> bool {
    &&& a.file@ == file
    &&& a.start == start
    &&& a.end == end
    &&& a.snippet@ == text
    &&& a.cached == cached
    &&& a.blob is None
    &&& a.head_sha is None
}

/// The conversations after a turn was rewritten: a turn that has been delivered
/// since is history, so the text is added behind it.
pub open spec fn rewritten(before: Thread, after: Thread, turn: usize, text: String) -> bool {
    if turn < before.turns@.len() && !before.turns@[turn as int].sent {
        &&& after.turns@.len() == before.turns@.len()
        &&& after.turns@ == before.turns@.update(turn as int, after.turns@[turn as int])
        &&& after.turns@[turn as int] == (Turn {
            text,
            at: after.turns@[turn as int].at,
            ..before.turns@[turn as int]
        })
        &&& after.id == before.id
        &&& after.anchor == before.anchor
        &&& after.state == before.state
        &&& after.agent == before.agent
        &&& after.created_at == before.created_at
        &&& after.updated_at == before.updated_at
    } else {
        exists|at: i64, updated: i64| before.grown_to(after, Author::Human, text, at, updated)
    }
}

/// The store with a conversation opened in it.
pub open spec fn thread_opened(before: ThreadStore, after: ThreadStore, anchor: Anchor, text: String) -> bool {
    &&& after.threads@.len() == before.threads@.len() + 1
    &&& after.threads@ == before.threads@.push(after.threads@.last())
    &&& exists|at: i64| after.threads@.last().opens_as(before.next_id, anchor, text, at)
    &&& after.next_id == before.next_id + 1
    &&& after.same_frame(before)
}

// ---- the box ------------------------------------------------------------------------------

impl Composer {
    /// What a key does in the box. Enter saves, unless it is held with shift or
    /// alt; esc cancels.
    pub open spec fn outcome(self, key: Key, width: int) -> Outcome {
        if self.input.model().edited(key, width) is Some {
            Outcome::Edited
        } else {
            match key.code {
                KeyCode::Enter => Outcome::Save,
                KeyCode::Esc => Outcome::Cancel,
                _ => Outcome::Ignored,
            }
        }
    }

    /// Take a key.
    pub fn key(&mut self, ev: Key, width: usize) -> (r: Outcome)
        requires
            old(self).input.wf(),
        ensures
            final(self).input.wf(),
            final(self).editing == old(self).editing,
            r == old(self).outcome(ev, width as int),
            match old(self).input.model().edited(ev, width as int) {
                Some(a) => final(self).input.model() == a,
                None => *final(self) == *old(self),
            },
    {
        if self.input.key(ev, width) {
            return Outcome::Edited;
        }
        match ev.code {
            KeyCode::Enter => Outcome::Save,
            KeyCode::Esc => Outcome::Cancel,
            _ => Outcome::Ignored,
        }
    }

    /// The text of the box; none where there is nothing but blanks.
    pub fn finish(&self) -> (r: Option<String>)
        ensures
            match r {
                Some(t) => !is_blank(self.input.text@) && t@ == self.input.text@,
                None => is_blank(self.input.text@),
            },
    {
        let t: String = self.input.text();
        if blank(t.as_str()) {
            None
        } else {
            Some(t)
        }
    }
}

impl PreviewApp {
    // ---- opening ---------------------------------------------------------------

    /// The pane with an empty box on lines of a file.
    pub open spec fn box_opens(self, after: PreviewApp, keep_selection: bool) -> bool {
        &&& after == (PreviewApp {
            pending: after.pending,
            composer: after.composer,
            view: after.view,
            stamp_request: true,
            ..self
        })
        &&& after.composer matches Some(c)
        &&& c.editing is None
        &&& c.input.text@.len() == 0 && c.input.caret == 0
        &&& after.view.model() == after.rebuilt(
            ViewV {
                select: if keep_selection {
                    self.view.model().select
                } else {
                    None
                },
                ..self.view.model()
            },
        ).at_composer()
    }

    fn open_box(&mut self, file: &str, start: u32, end: u32, text: String, cached: bool)
        requires
            old(self).wf(),
        ensures
            final(self).wf(),
            old(self).box_opens(*final(self), true),
            final(self).pending matches Some(p) && p.target == Target::New && bare_anchor(
                p.anchor,
                file@,
                start,
                end,
                text@,
                cached,
            ),
    {
        self.pending = Some(
            Pending {
                anchor: Anchor {
                    file: file.to_owned(),
                    start,
                    end,
                    cached,
                    snippet: text,
                    blob: None,
                    head_sha: None,
                },
                target: Target::New,
            },
        );
        self.stamp_request = true;
        self.composer = Some(
            Composer { editing: None, input: TextArea { text: Vec::new(), caret: 0 } },
        );
        self.rebuild();
        self.view.scroll_to_composer();
    }

    /// The blob and the commit that the pending note is written against.
    pub fn stamp_pending(&mut self, blob: Option<String>, head_sha: Option<String>)
        ensures
            *final(self) == (PreviewApp {
                stamp_request: false,
                pending: final(self).pending,
                ..*old(self)
            }),
            match (old(self).pending, final(self).pending) {
                (Some(p), Some(q)) => q == (Pending {
                    anchor: Anchor { blob, head_sha, ..p.anchor },
                    ..p
                }),
                (None, None) => true,
                _ => false,
            },
    {
        self.stamp_request = false;
        match &mut self.pending {
            Some(p) => {
                p.anchor.blob = blob;
                p.anchor.head_sha = head_sha;
            },
            None => {},
        }
    }

    /// The numbers and the text of the selected lines.
    fn gather(&self) -> (r: (Vec<u32>, String))
        requires
            self.wf(),
            self.built is Some,
        ensures
            ({
                let v = self.view.model();
                let rows = self.built->0.model();
                let (a, b) = v.selected();
                &&& r.0@ == new_numbers(v.card_lines, rows, a, b + 1)
                &&& r.1@ == snippet(v.card_lines, rows, a, b + 1)
            }),
    {
        broadcast use group_deep;

        let mut numbers: Vec<u32> = Vec::new();
        let mut text: String = String::new();
        match &self.built {
            None => {},
            Some(built) => {
                let ghost cards = self.view.model().card_lines;
                let ghost rows = built.model();
                let (a, b) = self.view.selection();
                let mut line: usize = a;
                let mut more: bool = true;
                while more
                    invariant
                        a <= line <= b,
                        self.wf(),
                        built.wf(),
                        rows == built.model(),
                        cards == self.view.model().card_lines,
                        numbers@ == new_numbers(cards, rows, a as int, if more { line as int } else { b + 1 }),
                        text@ == snippet(cards, rows, a as int, if more { line as int } else { b + 1 }),
                    decreases b - line, if more { 1int } else { 0int },
                {
                    match self.view.doc_to_built(line) {
                        None => {},
                        Some(k) => {
                            match built.numbers_of_line(k) {
                                Some((_, Some(n))) => {
                                    numbers.push(n);
                                },
                                _ => {},
                            }
                            match built.marker_text_of_line(k) {
                                Some(t) => {
                                    let count: usize = lines_of(text.as_str()).len();
                                    assert(count == lines(text@).len());
                                    if t.as_str().unicode_len() > 0 && count < SNIPPET_LINES {
                                        text.push_str(t.as_str());
                                        text.push('\n');
                                    }
                                },
                                None => {},
                            }
                        },
                    }
                    if line == b {
                        more = false;
                    } else {
                        line += 1;
                    }
                }
            },
        }
        (numbers, text)
    }

    /// Why no note can be written on the selection, if none can.
    pub open spec fn annotate_refusal(self) -> Option<Seq<char>> {
        match (self.current, self.built) {
            (Some(req), b) if req.commit is Some || req.scope != Scope::Worktree => Some(
                "notes work on staged/unstaged changes only"@,
            ),
            (Some(_), Some(b)) if self.selected_range() is None => Some(
                "select added or context lines to annotate"@,
            ),
            _ => None,
        }
    }

    /// The lines that a note on the selection is about.
    pub open spec fn selected_range(self) -> Option<(u32, u32)> {
        let v = self.view.model();
        let (a, b) = v.selected();
        note_range(new_numbers(v.card_lines, self.built->0.model(), a, b + 1))
    }

    /// The pane after a note on the selection was asked for.
    pub open spec fn annotates(self, after: PreviewApp) -> bool {
        match self.annotate_refusal() {
            Some(msg) => {
                &&& after == (PreviewApp { flash: after.flash, ..self })
                &&& after.flash matches Some(f)
                &&& f.0@ == msg
                &&& f.1 == self.now
            },
            None => if self.current is None || self.built is None {
                after == self
            } else {
                let v = self.view.model();
                let (a, b) = v.selected();
                &&& self.box_opens(after, true)
                &&& after.pending matches Some(p)
                &&& p.target == Target::New
                &&& bare_anchor(
                    p.anchor,
                    self.current->0.file@,
                    (self.selected_range()->0).0,
                    (self.selected_range()->0).1,
                    snippet(v.card_lines, self.built->0.model(), a, b + 1),
                    self.current->0.cached,
                )
            },
        }
    }

    /// Open the box on the selected lines.
    pub fn begin_annotate(&mut self)
        requires
            old(self).wf(),
        ensures
            final(self).wf(),
            old(self).annotates(*final(self)),
    {
        let (ok, file, cached): (bool, String, bool) = match &self.current {
            None => {
                return;
            },
            Some(req) => (
                req.commit.is_none() && req.scope == Scope::Worktree,
                req.file.as_str().to_owned(),
                req.cached,
            ),
        };
        if !ok {
            self.flash("notes work on staged/unstaged changes only");
            return;
        }
        if self.built.is_none() {
            return;
        }
        let (numbers, text) = self.gather();
        match range_of_numbers(&numbers) {
            None => {
                self.flash("select added or context lines to annotate");
            },
            Some((start, end)) => {
                self.open_box(file.as_str(), start, end, text, cached);
            },
        }
    }

    /// Open the box on the whole file.
    pub fn begin_file_note(&mut self)
        requires
            old(self).wf(),
        ensures
            final(self).wf(),
            match old(self).current {
                None => *final(self) == *old(self),
                Some(req) => {
                    &&& old(self).box_opens(*final(self), false)
                    &&& final(self).pending matches Some(p)
                    &&& p.target == Target::New
                    &&& bare_anchor(p.anchor, req.file@, 0, 0, Seq::empty(), req.cached)
                },
            },
    {
        let (file, cached): (String, bool) = match &self.current {
            None => {
                return;
            },
            Some(req) => (req.file.as_str().to_owned(), req.cached),
        };
        self.view.select_anchor = None;
        self.open_box(file.as_str(), 0, 0, String::new(), cached);
    }

    /// The pane with the box on a conversation.
    pub open spec fn box_reopens(self, after: PreviewApp, id: u64, seed: Seq<char>, target: Target) -> bool {
        let k = at_id(self.store.threads@, id);
        &&& after == (PreviewApp {
            pending: after.pending,
            composer: after.composer,
            view: after.view,
            ..self
        })
        &&& after.composer matches Some(c)
        &&& c.editing == Some(id)
        &&& c.input.model() == (AreaV { text: seed, caret: seed.len() as int })
        &&& after.pending matches Some(p)
        &&& p.target == target
        &&& anchor_same(p.anchor, self.store.threads@[k].anchor)
        &&& after.view.model() == after.rebuilt(ViewV { select: None, ..self.view.model() }).at_composer()
    }

    fn reopen_box(&mut self, id: u64, anchor: Anchor, seed: &str, target: Target)
        requires
            old(self).wf(),
            at_id(old(self).store.threads@, id) >= 0,
            anchor_same(anchor, old(self).store.threads@[at_id(old(self).store.threads@, id)].anchor),
        ensures
            final(self).wf(),
            old(self).box_reopens(*final(self), id, seed@, target),
    {
        self.view.select_anchor = None;
        self.composer = Some(Composer { editing: Some(id), input: TextArea::new(seed) });
        self.pending = Some(Pending { anchor, target });
        self.rebuild();
        self.view.scroll_to_composer();
    }

    /// The width of the text in the box.
    pub open spec fn box_text_width(self) -> int {
        box_width(card_width(self.view.model().width)) - 4
    }

    pub fn composer_width(&self) -> (r: usize)
        ensures
            r == self.box_text_width(),
    {
        let width: usize = if self.view.viewport_w < MIN_WIDTH {
            MIN_WIDTH as usize
        } else {
            self.view.viewport_w as usize
        };
        card_text_width(width)
    }

    /// Whether a conversation is in the file that is shown.
    pub open spec fn in_shown_file(self, id: u64) -> bool {
        let k = at_id(self.store.threads@, id);
        &&& k >= 0
        &&& self.current matches Some(c)
        &&& same_file(c.file@, self.store.threads@[k].anchor.file@)
    }

    /// Open the box on a conversation: on its last turn that has not been sent,
    /// or for a reply where all have. False where the conversation is not in the
    /// file that is shown.
    pub fn begin_edit_note(&mut self, id: u64) -> (r: bool)
        requires
            old(self).wf(),
        ensures
            final(self).wf(),
            r == old(self).in_shown_file(id),
            !r ==> *final(self) == *old(self),
            r ==> ({
                let t = old(self).store.threads@[at_id(old(self).store.threads@, id)];
                let n = newest_pending(t.turns@);
                if n >= 0 {
                    old(self).box_reopens(
                        *final(self),
                        id,
                        t.turns@[n].text@,
                        Target::Edit { id, turn: n as usize },
                    )
                } else {
                    old(self).box_reopens(*final(self), id, Seq::empty(), Target::Reply(id))
                }
            }),
    {
        let (anchor, seed, target): (Anchor, String, Target) = match self.store.get(id) {
            None => {
                return false;
            },
            Some(t) => {
                let shown: bool = match &self.current {
                    Some(c) => is_same_file(c.file.as_str(), t.anchor.file.as_str()),
                    None => false,
                };
                if !shown {
                    return false;
                }
                let a: Anchor = copy_anchor(&t.anchor);
                proof {
                    lemma_newest_pending(t.turns@);
                }
                match t.editable_turn() {
                    Some(turn) => (
                        a,
                        t.turns[turn].text.as_str().to_owned(),
                        Target::Edit { id, turn },
                    ),
                    None => (a, String::new(), Target::Reply(id)),
                }
            },
        };
        self.reopen_box(id, anchor, seed.as_str(), target);
        true
    }

    /// Open the box for a reply. False where there is no such conversation.
    pub fn begin_reply(&mut self, id: u64) -> (r: bool)
        requires
            old(self).wf(),
        ensures
            final(self).wf(),
            r == (at_id(old(self).store.threads@, id) >= 0),
            !r ==> *final(self) == *old(self),
            r ==> old(self).box_reopens(*final(self), id, Seq::empty(), Target::Reply(id)),
    {
        let anchor: Anchor = match self.store.get(id) {
            None => {
                return false;
            },
            Some(t) => copy_anchor(&t.anchor),
        };
        let seed: String = String::new();
        self.reopen_box(id, anchor, seed.as_str(), Target::Reply(id));
        true
    }
}

impl PreviewApp {
    // ---- closing --------------------------------------------------------------------

    /// The pane with the box closed.
    pub open spec fn box_closes(self, after: PreviewApp) -> bool {
        &&& after == (PreviewApp { composer: None, pending: None, view: after.view, ..self })
        &&& after.view.model() == after.rebuilt(ViewV { select: None, ..self.view.model() })
    }

    pub fn cancel_composer(&mut self)
        requires
            old(self).wf(),
        ensures
            final(self).wf(),
            old(self).box_closes(*final(self)),
    {
        self.composer = None;
        self.pending = None;
        self.view.select_anchor = None;
        self.rebuild();
    }

    /// The pane with the box gone and its subject taken, before anything is
    /// done with the text.
    pub open spec fn emptied(self) -> PreviewApp {
        PreviewApp {
            composer: None,
            pending: None,
            view: DocView { select_anchor: None, ..self.view },
            ..self
        }
    }

    /// The pane after a text was put where the open box stood. A text for a
    /// conversation that is gone is dropped.
    pub open spec fn saves(self, after: PreviewApp, t: String) -> bool {
        match self.pending {
            None => after == (PreviewApp { composer: None, ..self }),
            Some(p) => {
                let e = self.emptied();
                match p.target {
                    Target::New => {
                        &&& thread_opened(self.store, after.store, p.anchor, t)
                        &&& e.changed_to(after)
                    },
                    Target::Edit { id, turn } => {
                        let k = at_id(self.store.threads@, id);
                        if k < 0 {
                            after == e
                        } else {
                            &&& one_changed(self.store, after.store, k)
                            &&& rewritten(self.store.threads@[k], after.store.threads@[k], turn, t)
                            &&& e.changed_to(after)
                        }
                    },
                    Target::Reply(id) => {
                        let k = at_id(self.store.threads@, id);
                        if k < 0 {
                            after == e
                        } else {
                            &&& one_changed(self.store, after.store, k)
                            &&& exists|at: i64, updated: i64|
                                self.store.threads@[k].grown_to(
                                    after.store.threads@[k],
                                    Author::Human,
                                    t,
                                    at,
                                    updated,
                                )
                            &&& e.changed_to(after)
                        }
                    },
                }
            },
        }
    }

    /// The pane after the box was closed with what is in it. A box with nothing
    /// but blanks is one that was given up.
    pub open spec fn commits(self, after: PreviewApp) -> bool {
        match self.composer {
            None => after == self,
            Some(c) => if is_blank(c.input.text@) {
                self.box_closes(after)
            } else {
                exists|t: String| t@ == c.input.text@ && #[trigger] self.saves(after, t)
            },
        }
    }

    fn open_thread(&mut self, anchor: Anchor, text: String)
        requires
            old(self).wf(),
            old(self).notes_rev < u64::MAX,
            old(self).store.next_id < u64::MAX,
        ensures
            final(self).wf(),
            thread_opened(old(self).store, final(self).store, anchor, text),
            old(self).changed_to(*final(self)),
    {
        let ghost before = self.store;
        let id: u64 = self.store.alloc_id();
        let t: Thread = Thread::new(id, anchor, text);
        let ghost made = t;
        self.store.threads.push(t);
        proof {
            assert(made.opens_as(before.next_id, anchor, text, made.created_at));
            lemma_pushed_wf(before, self.store, made);
            assert(self.store.threads@.last() == made);
        }
        self.threads_changed();
    }

    fn rewrite_turn(&mut self, id: u64, turn: usize, text: String)
        requires
            old(self).wf(),
            old(self).notes_rev < u64::MAX,
        ensures
            final(self).wf(),
            ({
                let k = at_id(old(self).store.threads@, id);
                if k < 0 {
                    *final(self) == *old(self)
                } else {
                    &&& one_changed(old(self).store, final(self).store, k)
                    &&& rewritten(
                        old(self).store.threads@[k],
                        final(self).store.threads@[k],
                        turn,
                        text,
                    )
                    &&& old(self).changed_to(*final(self))
                }
            }),
    {
        let ghost before = self.store;
        let ghost k = at_id(before.threads@, id);
        match self.store.get_mut(id) {
            None => {
                return;
            },
            Some(t) => {
                rewrite(t, turn, text);
            },
        }
        proof {
            assert(before.threads@[k].turns@.len() > 0);
            lemma_one_changed_wf(before, self.store, k);
        }
        self.threads_changed();
    }

    /// Close the box with what is in it.
    pub fn commit_composer(&mut self)
        requires
            old(self).wf(),
            old(self).notes_rev < u64::MAX,
            old(self).store.next_id < u64::MAX,
        ensures
            final(self).wf(),
            old(self).commits(*final(self)),
    {
        let done: Option<String> = match &self.composer {
            None => {
                return;
            },
            Some(c) => c.finish(),
        };
        let text: String = match done {
            None => {
                self.cancel_composer();
                return;
            },
            Some(t) => t,
        };
        let ghost t = text;
        self.composer = None;
        let pending: Option<Pending> = self.pending.take();
        match pending {
            None => {},
            Some(p) => {
                self.view.select_anchor = None;
                match p.target {
                    Target::New => self.open_thread(p.anchor, text),
                    Target::Edit { id, turn } => self.rewrite_turn(id, turn, text),
                    Target::Reply(id) => self.append_human_turn(id, text),
                }
            },
        }
        assert(old(self).saves(*self, t));
    }

    /// A popup returned a text: open a conversation at the pending place.
    pub fn finish_annotate(&mut self, text: String)
        requires
            old(self).wf(),
            old(self).notes_rev < u64::MAX,
            old(self).store.next_id < u64::MAX,
        ensures
            final(self).wf(),
            match old(self).pending {
                None => *final(self) == *old(self),
                Some(p) => {
                    &&& thread_opened(old(self).store, final(self).store, p.anchor, text)
                    &&& (PreviewApp {
                        pending: None,
                        view: DocView { select_anchor: None, ..old(self).view },
                        ..*old(self)
                    }).changed_to(*final(self))
                },
            },
    {
        let pending: Option<Pending> = self.pending.take();
        match pending {
            None => {},
            Some(p) => {
                self.view.select_anchor = None;
                self.open_thread(p.anchor, text);
            },
        }
    }

    /// The pane after a key press in the open box.
    pub open spec fn typed(self, after: PreviewApp, key: Key) -> bool {
        match self.composer {
            None => after == self,
            Some(c) => match c.outcome(key, self.box_text_width()) {
                Outcome::Ignored => after == self,
                Outcome::Edited => {
                    &&& after == (PreviewApp { composer: after.composer, view: after.view, ..self })
                    &&& after.composer matches Some(d)
                    &&& d.editing == c.editing
                    &&& Some(d.input.model()) == c.input.model().edited(key, self.box_text_width())
                    &&& after.view.model() == after.rebuilt(self.view.model()).at_composer()
                },
                Outcome::Save => self.commits(after),
                Outcome::Cancel => self.box_closes(after),
            },
        }
    }

    /// Hand a key to the open box, and act on what it asks for.
    pub fn compose_key(&mut self, ev: Key)
        requires
            old(self).wf(),
            old(self).notes_rev < u64::MAX,
            old(self).store.next_id < u64::MAX,
        ensures
            final(self).wf(),
            old(self).typed(*final(self), ev),
    {
        let width: usize = self.composer_width();
        match self.composer.take() {
            None => {},
            Some(c) => {
                let mut c: Composer = c;
                let outcome: Outcome = c.key(ev, width);
                self.composer = Some(c);
                match outcome {
                    Outcome::Ignored => {},
                    Outcome::Edited => {
                        self.rebuild();
                        self.view.scroll_to_composer();
                    },
                    Outcome::Save => self.commit_composer(),
                    Outcome::Cancel => self.cancel_composer(),
                }
            },
        }
    }

    // ---- finding conversations ----------------------------------------------------------

    /// The request that puts a conversation's file on screen; none where it is
    /// there already.
    pub fn show_for_note(&self, id: u64) -> (r: Option<ToPreview>)
        ensures
            ({
                let k = at_id(self.store.threads@, id);
                if k < 0 || self.in_shown_file(id) {
                    r is None
                } else {
                    let a = self.store.threads@[k].anchor;
                    r matches Some(ToPreview::Show { file, orig_path, scope, cached, kind, commit })
                        && file@ == a.file@ && orig_path is None && scope == Scope::Worktree && cached
                        == a.cached && kind == ChangeKind::Modified && commit is None
                }
            }),
    {
        match self.store.get(id) {
            None => None,
            Some(t) => {
                let shown: bool = match &self.current {
                    Some(c) => is_same_file(c.file.as_str(), t.anchor.file.as_str()),
                    None => false,
                };
                if shown {
                    None
                } else {
                    Some(
                        ToPreview::Show {
                            file: t.anchor.file.as_str().to_owned(),
                            orig_path: None,
                            scope: Scope::Worktree,
                            cached: t.anchor.cached,
                            kind: ChangeKind::Modified,
                            commit: None,
                        },
                    )
                }
            },
        }
    }

    /// Whether a conversation's file is on screen.
    pub open spec fn note_on_screen(self, id: u64) -> bool {
        self.in_shown_file(id) && self.active()
    }

    /// Scroll to a conversation, now or when its diff comes.
    pub fn focus_note(&mut self, id: u64)
        requires
            old(self).wf(),
        ensures
            final(self).wf(),
            if old(self).note_on_screen(id) {
                &&& *final(self) == (PreviewApp { view: final(self).view, ..*old(self) })
                &&& final(self).view.model() == old(self).view.model().at_note(
                    id,
                    true,
                    old(self).cfg.theme,
                )
            } else {
                *final(self) == (PreviewApp { pending_focus: Some(id), ..*old(self) })
            },
    {
        let here: bool = match (self.store.get(id), &self.current) {
            (Some(t), Some(c)) => is_same_file(c.file.as_str(), t.anchor.file.as_str()),
            _ => false,
        };
        if here && self.showing_diff() {
            self.view.scroll_to_note(id, true, self.cfg.theme);
        } else {
            self.pending_focus = Some(id);
        }
    }

    /// The pane after the conversation at the cursor was collapsed, or expanded
    /// again.
    pub open spec fn toggles(self, after: PreviewApp) -> bool {
        match thread_meant(self.view.model().card_starts, self.view.model().cursor) {
            None => self.says(after, "no thread here"@),
            Some(id) => {
                &&& after == (PreviewApp { collapsed: after.collapsed, view: after.view, ..self })
                &&& after.collapsed@ == if self.collapsed@.contains(id) {
                    self.collapsed@.remove(id)
                } else {
                    self.collapsed@.insert(id)
                }
                &&& after.view.model() == after.rebuilt(self.view.model())
            },
        }
    }

    /// The pane after it told the user something.
    pub open spec fn says(self, after: PreviewApp, msg: Seq<char>) -> bool {
        &&& after == (PreviewApp { flash: after.flash, ..self })
        &&& after.flash matches Some(f)
        &&& f.0@ == msg
        &&& f.1 == self.now
    }

    pub fn toggle_thread_at_cursor(&mut self)
        requires
            old(self).wf(),
        ensures
            final(self).wf(),
            old(self).toggles(*final(self)),
    {
        broadcast use group_hash_axioms;

        match self.view.thread_at_cursor() {
            None => self.flash("no thread here"),
            Some(id) => {
                if !self.collapsed.remove(&id) {
                    self.collapsed.insert(id);
                    assert(self.collapsed@ =~= old(self).collapsed@.insert(id));
                }
                self.rebuild();
            },
        }
    }

    // ---- keys ---------------------------------------------------------------------------

    /// The rows of half a page.
    pub open spec fn half_page(self) -> int {
        most(self.view.model().height, 2) / 2
    }

    /// The pane after the cursor moved.
    pub open spec fn moves(self, after: PreviewApp, delta: int) -> bool {
        &&& after == (PreviewApp { view: after.view, ..self })
        &&& after.view.model() == self.view.model().moved(delta as i32, self.active(), self.cfg.theme)
    }

    /// The pane after an action.
    pub open spec fn acts(self, after: PreviewApp, action: Action) -> bool {
        let v = self.view.model();
        match action {
            Action::Down | Action::ScrollDown => self.moves(after, 1),
            Action::Up | Action::ScrollUp => self.moves(after, -1),
            Action::HalfPageDown => self.moves(after, self.half_page()),
            Action::HalfPageUp => self.moves(after, -self.half_page()),
            Action::Top | Action::DiffTop => self.moves(after, i32::MIN as int),
            Action::Bottom | Action::DiffBottom => self.moves(after, i32::MAX as int),
            Action::Select => if !self.active() {
                after == self
            } else if v.select is Some {
                &&& after == (PreviewApp { view: after.view, ..self })
                &&& after.view.model() == ViewV { select: None, ..v }.restyled(true, self.cfg.theme)
            } else {
                &&& after == (PreviewApp { view: after.view, flash: after.flash, ..self })
                &&& after.flash matches Some(f)
                &&& f.0@ == "visual: j/k extend · a note · esc cancel"@ && f.1 == self.now
                &&& after.view.model() == ViewV { select: Some(self.view.cursor_line), ..v }.restyled(
                    true,
                    self.cfg.theme,
                )
            },
            Action::Annotate => self.annotates(after),
            Action::ToggleThread => self.toggles(after),
            Action::NotesView => after == (PreviewApp { notes_view_request: true, ..self }),
            Action::Edit => after == (PreviewApp { edit_request: true, ..self }),
            Action::SendNotes => if exists|i: int|
                0 <= i < self.store.threads@.len() && (#[trigger] self.store.threads@[i]).wants_sending() {
                after == (PreviewApp { popup_request: Some(PopupReq::PickAgent), ..self })
            } else if self.store.threads@.len() == 0 {
                self.says(after, "no threads yet — select lines and press a"@)
            } else {
                self.says(after, "nothing unsent — every thread is already with the agent"@)
            },
            Action::Quit => if v.select is Some {
                &&& after == (PreviewApp { view: after.view, ..self })
                &&& after.view.model() == ViewV { select: None, ..v }.restyled(
                    self.active(),
                    self.cfg.theme,
                )
            } else {
                after == (PreviewApp { should_quit: true, close_view: true, ..self })
            },
            _ => after == self,
        }
    }

    fn toggle_select(&mut self)
        requires
            old(self).wf(),
        ensures
            final(self).wf(),
            old(self).acts(*final(self), Action::Select),
    {
        if self.showing_diff() {
            if self.view.select_anchor.is_some() {
                self.view.select_anchor = None;
            } else {
                self.flash("visual: j/k extend · a note · esc cancel");
                self.view.select_anchor = Some(self.view.cursor_line);
            }
            self.view.restyle(true, self.cfg.theme);
        }
    }

    fn send_notes(&mut self)
        requires
            old(self).wf(),
        ensures
            final(self).wf(),
            old(self).acts(*final(self), Action::SendNotes),
    {
        if self.store.has_unsent() {
            self.popup_request = Some(PopupReq::PickAgent);
        } else if self.store.is_empty() {
            self.flash("no threads yet — select lines and press a");
        } else {
            self.flash("nothing unsent — every thread is already with the agent");
        }
    }

    fn back_out(&mut self)
        requires
            old(self).wf(),
        ensures
            final(self).wf(),
            old(self).acts(*final(self), Action::Quit),
    {
        if self.view.select_anchor.is_some() {
            self.view.select_anchor = None;
            let active: bool = self.showing_diff();
            self.view.restyle(active, self.cfg.theme);
        } else {
            self.should_quit = true;
            self.close_view = true;
        }
    }

    /// The pane after a key press.
    pub open spec fn keyed(self, after: PreviewApp, key: Key) -> bool {
        if self.composer is Some {
            self.typed(after, key)
        } else {
            match self.keys.action_of(key) {
                Some(action) => self.acts(after, action),
                None => after == self,
            }
        }
    }

    /// A key press. The box takes every key while it is open.
    pub fn on_key(&mut self, ev: Key)
        requires
            old(self).wf(),
            old(self).notes_rev < u64::MAX,
            old(self).store.next_id < u64::MAX,
        ensures
            final(self).wf(),
            old(self).keyed(*final(self), ev),
    {
        if self.composer.is_some() {
            self.compose_key(ev);
            return;
        }
        let half: i32 = if self.view.viewport_h < 2 {
            1
        } else {
            (self.view.viewport_h / 2) as i32
        };
        match self.keys.action(ev) {
            None => {},
            Some(action) => match action {
                Action::Down | Action::ScrollDown => self.move_cursor(1),
                Action::Up | Action::ScrollUp => self.move_cursor(-1),
                Action::HalfPageDown => self.move_cursor(half),
                Action::HalfPageUp => self.move_cursor(-half),
                Action::Top | Action::DiffTop => self.move_cursor(i32::MIN),
                Action::Bottom | Action::DiffBottom => self.move_cursor(i32::MAX),
                Action::Select => self.toggle_select(),
                Action::Annotate => self.begin_annotate(),
                Action::ToggleThread => self.toggle_thread_at_cursor(),
                Action::NotesView => {
                    self.notes_view_request = true;
                },
                Action::Edit => {
                    self.edit_request = true;
                },
                Action::SendNotes => self.send_notes(),
                Action::Quit => self.back_out(),
                _ => {},
            },
        }
    }
}

fn rewrite(t: &mut Thread, turn: usize, text: String)
    ensures
        rewritten(*old(t), *final(t), turn, text),
        final(t).id == old(t).id,
        old(t).turns@.len() > 0 ==> final(t).turns@.len() > 0,
{
    if turn < t.turns.len() && !t.turns[turn].sent {
        let at: i64 = now_epoch();
        t.turns[turn].text = text;
        t.turns[turn].at = at;
        assert(t.turns@ =~= old(t).turns@.update(turn as int, t.turns@[turn as int]));
    } else {
        t.push(Author::Human, text);
    }
}

/// Two anchors on the same place, written against the same state.
pub open spec fn anchor_same(a: Anchor, b: Anchor) -> bool {
    &&& a.file@ == b.file@
    &&& a.start == b.start
    &&& a.end == b.end
    &&& a.cached == b.cached
    &&& a.snippet@ == b.snippet@
    &&& a.blob.deep_view() == b.blob.deep_view()
    &&& a.head_sha.deep_view() == b.head_sha.deep_view()
}

pub(crate) fn copy_text(s: &Option<String>) -> (r: Option<String>)
    ensures
        r.deep_view() == s.deep_view(),
{
    match s {
        Some(x) => Some(x.as_str().to_owned()),
        None => None,
    }
}

fn copy_anchor(a: &Anchor) -> (r: Anchor)
    ensures
        anchor_same(r, *a),
{
    Anchor {
        file: a.file.as_str().to_owned(),
        start: a.start,
        end: a.end,
        cached: a.cached,
        snippet: a.snippet.as_str().to_owned(),
        blob: copy_text(&a.blob),
        head_sha: copy_text(&a.head_sha),
    }
}

// ---- laws -----------------------------------------------------------------------------------

/// What is saved is what the box shows: closing the box with a text puts that
/// text, letter by letter, into the conversation.
pub proof fn law_the_box_saves_what_it_shows(before: PreviewApp, after: PreviewApp, key: Key)
    requires
        before.typed(after, key),
        before.composer matches Some(c) && c.outcome(key, before.box_text_width()) == Outcome::Save
            && !is_blank(c.input.text@),
        before.pending is Some,
    ensures
        ({
            let text = before.composer->0.input.text@;
            match before.pending->0.target {
                Target::New => after.store.threads@.len() == before.store.threads@.len() + 1
                    && after.store.threads@.last().turns@.len() == 1
                    && after.store.threads@.last().turns@[0].text@ == text,
                Target::Edit { id, turn } => {
                    let k = at_id(before.store.threads@, id);
                    let n = before.store.threads@[k].turns@;
                    k >= 0 ==> if turn < n.len() && !n[turn as int].sent {
                        after.store.threads@[k].turns@[turn as int].text@ == text
                    } else {
                        after.store.threads@[k].turns@.last().text@ == text
                    }
                },
                Target::Reply(id) => {
                    let k = at_id(before.store.threads@, id);
                    k >= 0 ==> after.store.threads@[k].turns@.last().text@ == text
                },
            }
        }),
{
}

/// A key that only moves the caret or is not the box's own saves nothing.
pub proof fn law_only_enter_saves(c: Composer, key: Key, width: int)
    requires
        c.outcome(key, width) == Outcome::Save,
    ensures
        key.code == KeyCode::Enter,
        !key.mods.shift && !key.mods.alt,
{
}

} // verus!
