//! What wakes the list pane, and what it does between events.

use vstd::prelude::*;

use crate::git::FileEntry;
use crate::ipc::{ToList, ToPreview};
use crate::keymap::Key;
use crate::list::{App, EditorThen, Modal};
use crate::list_rows::Mode;
use crate::list_session::{Deed, Link, Session};
use crate::preview::Mouse;

verus! {

/// Everything that the list pane is woken by.
pub enum Event {
    Key(Key),
    /// What the mouse did, and on which line of the screen.
    Mouse(Mouse, u16),
    /// The diff pane is there.
    Connected,
    /// The files were loaded again.
    Refresh(Vec<FileEntry>),
    Ipc(ToList),
    /// The diff pane is gone.
    IpcClosed,
    /// The editor was asked whether it holds unsaved text.
    EditorProbe { next: Option<EditorThen>, unsaved: Option<bool> },
}

impl Session {
    /// What an answer of the editor leads to. Where no editor is open any more,
    /// it leads to nothing.
    pub open spec fn probed(self, after: Session, next: Option<EditorThen>, unsaved: Option<bool>) -> bool {
        let a = self.app;
        let b = after.app;
        &&& after == (Session { app: b, probe_pending: false, ..self })
        &&& if a.busy is None {
            b == a
        } else {
            match (unsaved, next) {
                (Some(false), _) => b == (App { after_edit: next, ..a }),
                (Some(true), Some(n)) => b == (App {
                    modal: Some(Modal::EditorClose { next: n }),
                    ..a
                }),
                (Some(true), None) => a.tells(b, "editor has unsaved changes — stays open"@),
                (None, Some(_)) => a.tells(b, "editor is open — close it first"@),
                (None, None) => b == a,
            }
        }
    }

    /// What an event leads to.
    pub open spec fn woken(self, after: Session, event: Event, deeds: Seq<Deed>) -> bool {
        match event {
            Event::Key(key) => self.keyed(after, key, deeds),
            Event::Mouse(kind, y) => exists|mid: App, activate: bool, deed: Option<Deed>|
                #![trigger self.app.pointed(mid, kind, y, activate), one_deed(deed)]
                self.app.pointed(mid, kind, y, activate) && (Session {
                    app: mid,
                    ..self
                }).mouse_settled(after, self.app.showing(), activate, deed) && deeds == one_deed(deed),
            Event::Connected => after == (Session { link: Link::Up, ..self }).dirtied()
                && deeds.len() == 0,
            Event::Refresh(entries) => {
                &&& after == (Session { app: after.app, ..self }).dirtied()
                &&& if self.app.mode == Mode::Files {
                    self.app.refreshed(after.app, entries)
                } else {
                    after.app == self.app
                }
                &&& deeds.len() == 0
            },
            Event::Ipc(msg) => self.hears(after, msg, deeds),
            Event::IpcClosed => after == (Session { link: Link::Down, ..self }) && deeds.len() == 0,
            Event::EditorProbe { next, unsaved } => self.probed(after, next, unsaved)
                && deeds.len() == 0,
        }
    }

    /// Take an event, and say what is to be done about it.
    pub fn on_event(&mut self, event: Event) -> (r: Vec<Deed>)
        requires
            old(self).app.wf(),
        ensures
            old(self).woken(*final(self), event, r@),
    {
        match event {
            Event::Key(key) => self.on_key(key),
            Event::Mouse(kind, y) => {
                let deed: Option<Deed> = self.on_mouse(kind, y);
                let ghost d = deed;
                let mut out: Vec<Deed> = Vec::new();
                match deed {
                    Some(x) => {
                        out.push(x);
                    },
                    None => {},
                }
                proof {
                    assert(out@ =~= one_deed(d));
                }
                out
            },
            Event::Connected => {
                self.adopt_conn();
                Vec::new()
            },
            Event::Refresh(entries) => {
                self.on_refresh(entries);
                Vec::new()
            },
            Event::Ipc(msg) => self.on_ipc(msg),
            Event::IpcClosed => {
                self.link = Link::Down;
                Vec::new()
            },
            Event::EditorProbe { next, unsaved } => {
                self.on_probe(next, unsaved);
                Vec::new()
            },
        }
    }
}

pub open spec fn one_deed(deed: Option<Deed>) -> Seq<Deed> {
    match deed {
        Some(d) => seq![d],
        None => seq![],
    }
}

/// Messages to be sent.
pub open spec fn sent(msgs: Seq<ToPreview>) -> Seq<Deed> {
    Seq::new(msgs.len(), |i: int| Deed::Send(msgs[i]))
}

/// A message to be handed over with the focus.
pub open spec fn handed(msg: Option<ToPreview>) -> Seq<Deed> {
    match msg {
        Some(m) => seq![Deed::HandOff(m)],
        None => seq![],
    }
}

/// A round of the loop: the list pane after each step, and what the step gave.
pub struct RoundV {
    pub probed: Session,
    pub probe: Option<EditorThen>,
    pub noted: Session,
    pub note: Option<ToPreview>,
    pub edited: Session,
    pub edit: Option<ToPreview>,
    pub told: Session,
    pub sends: Seq<ToPreview>,
    pub shown: Session,
    pub shows: Seq<ToPreview>,
    pub quit: Option<ToPreview>,
}

impl Session {
    /// A round: the editor is asked, notes are handed to the diff pane, messages
    /// go out, the selection is shown once it has settled, and last the diff
    /// pane is told to quit.
    pub open spec fn rounds(self, after: Session, v: RoundV) -> bool {
        &&& self.probe_taken(v.probed, v.probe)
        &&& v.probed.annotate_taken(v.noted, v.note)
        &&& v.noted.edit_note_taken(v.edited, v.edit)
        &&& v.edited.sends_taken(v.told, v.sends)
        &&& v.told.show_taken(v.shown, v.shows)
        &&& v.shown.quit_taken(after, v.quit)
    }

    /// What a round asks for, in order. A question is asked in a popup where
    /// none is open.
    pub open spec fn round_deeds(v: RoundV, popup_open: bool, deeds: Seq<Deed>) -> bool {
        let ask = v.edited.question(popup_open);
        let head = one_deed(
            match v.probe {
                Some(next) => Some(Deed::Probe(Some(next))),
                None => None,
            },
        ) + handed(v.note) + handed(v.edit);
        let tail = sent(v.sends) + sent(v.shows) + sent(
            match v.quit {
                Some(m) => seq![m],
                None => seq![],
            },
        );
        match ask {
            Some(q) => exists|text: String| text@ == q && deeds == head + seq![#[trigger] ask_deed(text)]
                + tail,
            None => deeds == head + tail,
        }
    }

    /// What is done between events.
    pub fn tick(&mut self, popup_open: bool) -> (r: Vec<Deed>)
        ensures
            exists|v: RoundV| #[trigger]
                old(self).rounds(*final(self), v) && Session::round_deeds(v, popup_open, r@),
    {
        let mut out: Vec<Deed> = Vec::new();
        let probe: Option<EditorThen> = self.take_probe();
        let ghost probed = *self;
        let ghost p = probe;
        match probe {
            Some(next) => {
                out.push(Deed::Probe(Some(next)));
            },
            None => {},
        }
        let note: Option<ToPreview> = self.take_annotate();
        let ghost noted = *self;
        let ghost n = note;
        push_handed(&mut out, note);
        let edit: Option<ToPreview> = self.take_edit_note();
        let ghost edited = *self;
        let ghost e = edit;
        push_handed(&mut out, edit);
        let ghost head = out@;
        let ask: Option<String> = self.popup_question(popup_open);
        let ghost q = ask;
        match ask {
            Some(text) => {
                out.push(Deed::Ask(text));
            },
            None => {},
        }
        let sends: Vec<ToPreview> = self.take_sends();
        let ghost told = *self;
        let ghost s = sends@;
        push_sent(&mut out, sends);
        let shows: Vec<ToPreview> = self.take_show();
        let ghost shown = *self;
        let ghost w = shows@;
        push_sent(&mut out, shows);
        let quit: Option<ToPreview> = self.take_quit();
        let ghost z = quit;
        match quit {
            Some(m) => {
                out.push(Deed::Send(m));
            },
            None => {},
        }
        proof {
            let v = RoundV {
                probed,
                probe: p,
                noted,
                note: n,
                edited,
                edit: e,
                told,
                sends: s,
                shown,
                shows: w,
                quit: z,
            };
            assert(head =~= one_deed(
                match p {
                    Some(next) => Some(Deed::Probe(Some(next))),
                    None => None,
                },
            ) + handed(n) + handed(e));
            let last = match z {
                Some(m) => seq![m],
                None => seq![],
            };
            assert(sent(last) =~= match z {
                Some(m) => seq![Deed::Send(m)],
                None => seq![],
            });
            let tail = sent(s) + sent(w) + sent(last);
            match q {
                Some(text) => {
                    assert(out@ =~= head + seq![ask_deed(text)] + tail);
                },
                None => {
                    assert(out@ =~= head + tail);
                },
            }
            assert(old(self).rounds(*self, v));
            assert(Session::round_deeds(v, popup_open, out@));
        }
        out
    }
}

pub open spec fn ask_deed(text: String) -> Deed {
    Deed::Ask(text)
}

fn push_handed(out: &mut Vec<Deed>, msg: Option<ToPreview>)
    ensures
        final(out)@ == old(out)@ + handed(msg),
{
    match msg {
        Some(m) => {
            out.push(Deed::HandOff(m));
        },
        None => {},
    }
    assert(out@ =~= old(out)@ + handed(msg));
}

fn push_sent(out: &mut Vec<Deed>, msgs: Vec<ToPreview>)
    ensures
        final(out)@ == old(out)@ + sent(msgs@),
{
    let ghost before = out@;
    let ghost all = msgs@;
    let mut rest: Vec<ToPreview> = msgs;
    let mut turned: Vec<ToPreview> = Vec::new();
    while rest.len() > 0
        invariant
            turned@.len() + rest@.len() == all.len(),
            rest@ == all.take(rest@.len() as int),
            forall|i: int| 0 <= i < turned@.len() ==> turned@[i] == all[all.len() - 1 - i],
        decreases rest@.len(),
    {
        let ghost pre = rest@;
        match rest.pop() {
            Some(m) => {
                assert(m == all[pre.len() - 1]);
                turned.push(m);
                assert(rest@ =~= all.take(rest@.len() as int));
            },
            None => {},
        }
    }
    while turned.len() > 0
        invariant
            turned@.len() <= all.len(),
            forall|i: int| 0 <= i < turned@.len() ==> turned@[i] == all[all.len() - 1 - i],
            out@ == before + sent(all.take(all.len() - turned@.len())),
        decreases turned@.len(),
    {
        let ghost pre = turned@;
        match turned.pop() {
            Some(m) => {
                let ghost k = all.len() - pre.len();
                assert(m == all[k]);
                out.push(Deed::Send(m));
                assert(out@ =~= before + sent(all.take(k + 1)));
            },
            None => {},
        }
    }
    assert(all.take(all.len() as int) =~= all);
}

// ---- laws ---------------------------------------------------------------------------

/// A note that is asked for right after the cursor moved is not overtaken: the
/// diff it is written on goes with it, and no other is shown in the same round.
pub proof fn law_note_is_not_overtaken(before: Session, after: Session, v: RoundV)
    requires
        before.rounds(after, v),
        v.note is Some,
    ensures
        v.note matches Some(ToPreview::ComposeNote { show }) && *show is Show,
        v.shows.len() == 0,
{
    reveal(Session::probe_taken);
    reveal(Session::annotate_taken);
    reveal(Session::edit_note_taken);
    reveal(Session::sends_taken);
    reveal(Session::show_taken);
}

/// The diff pane is told to quit once.
pub proof fn law_quit_is_said_once(a: Session, b: Session, c: Session, v: RoundV, w: RoundV)
    requires
        a.rounds(b, v),
        b.rounds(c, w),
        v.quit is Some,
    ensures
        w.quit is None,
{
    reveal(Session::probe_taken);
    reveal(Session::annotate_taken);
    reveal(Session::edit_note_taken);
    reveal(Session::sends_taken);
    reveal(Session::show_taken);
    reveal(Session::quit_taken);
}

/// An answer that comes when the editor has ended by itself sets nothing off.
pub proof fn law_late_answer_sets_nothing_off(before: Session, after: Session, next: Option<EditorThen>, unsaved: Option<bool>)
    requires
        before.app.busy is None,
        before.probed(after, next, unsaved),
    ensures
        after.app == before.app,
{
}

} // verus!
