//! What wakes the diff pane, and what it does between events.

use vstd::prelude::*;

use crate::ipc::{ToList, ToPreview, PROTO};
use crate::keymap::Key;
use crate::preview::{Mouse, PreviewApp, ReqV, ShowReq};
use crate::render::DiffDoc;
use crate::reply::ReplyMsg;
use crate::text::{deep, group_deep};

verus! {

/// Everything that the diff pane is woken by.
pub enum Event {
    Key(Key),
    /// What the mouse did, and on which line of the screen.
    Mouse(Mouse, u16),
    /// The list is there.
    Connected,
    /// A message of the list, with the branch's base where it had to be found.
    Ipc { msg: ToPreview, base: Option<String> },
    /// The list is gone.
    IpcClosed,
    /// A diff was made.
    Diff { req: ShowReq, result: Result<DiffDoc, String> },
    Reply(ReplyMsg),
}

/// What the run loop is to do.
pub enum Deed {
    Say(ToList),
    /// Make a diff.
    Diff(ShowReq),
    /// Run the editor on a file.
    Edit { file: String },
    /// Run git on this pane's terminal.
    Git { argv: Vec<String> },
}

/// The diffs that are to be made.
pub open spec fn diffs_of(deeds: Seq<Deed>) -> Seq<ReqV> {
    Seq::new(
        deeds.len(),
        |i: int|
            match deeds[i] {
                Deed::Diff(req) => req.deep_view(),
                _ => arbitrary(),
            },
    )
}

pub open spec fn only_diffs(deeds: Seq<Deed>) -> bool {
    forall|i: int| 0 <= i < deeds.len() ==> (#[trigger] deeds[i]) is Diff
}

fn diff_deeds(reqs: Vec<ShowReq>) -> (r: Vec<Deed>)
    ensures
        only_diffs(r@),
        diffs_of(r@) == deep(reqs@),
{
    broadcast use group_deep;

    let ghost all = deep(reqs@);
    let mut out: Vec<Deed> = Vec::new();
    let mut i: usize = 0;
    while i < reqs.len()
        invariant
            i <= reqs@.len(),
            all == deep(reqs@),
            out@.len() == i,
            only_diffs(out@),
            forall|j: int| 0 <= j < i ==> diffs_of(out@)[j] == all[j],
        decreases reqs@.len() - i,
    {
        out.push(Deed::Diff(reqs[i].copy()));
        i += 1;
    }
    assert(diffs_of(out@) =~= all);
    out
}

impl PreviewApp {
    /// What an event leads to.
    pub open spec fn woken(self, after: PreviewApp, event: Event, deeds: Seq<Deed>) -> bool {
        match event {
            Event::Key(key) => self.keyed(after, key) && deeds.len() == 0,
            Event::Mouse(kind, y) => self.pointed(after, kind, y) && deeds.len() == 0,
            Event::Connected => {
                &&& self.met(after)
                &&& deeds == seq![Deed::Say(ToList::Ready { proto: PROTO })]
            },
            Event::Ipc { msg: ToPreview::Edit { file }, .. } => {
                &&& after == self
                &&& deeds == seq![Deed::Edit { file }]
            },
            Event::Ipc { msg: ToPreview::GitInPane { argv }, .. } => {
                &&& after == self
                &&& deeds == seq![Deed::Git { argv }]
            },
            Event::Ipc { msg, base } => {
                &&& only_diffs(deeds)
                &&& self.hears(after, msg, base, diffs_of(deeds))
            },
            Event::IpcClosed => {
                &&& after == (PreviewApp { should_quit: true, ..self })
                &&& deeds.len() == 0
            },
            Event::Diff { req, result } => {
                &&& deeds.len() == 0
                &&& if !(self.current matches Some(c) && c.deep_view().asks_as(req.deep_view())) {
                    after == self
                } else {
                    match result {
                        Ok(d) => self.shows(after, d),
                        Err(msg) => after == (PreviewApp {
                            state: crate::preview::State::Error(msg),
                            ..self
                        }),
                    }
                }
            },
            Event::Reply(msg) => self.answered(after, msg) && deeds.len() == 0,
        }
    }

    /// Take an event, and say what is to be done about it.
    pub fn on_event(&mut self, event: Event) -> (r: Vec<Deed>)
        requires
            old(self).wf(),
            old(self).notes_rev < u64::MAX,
            old(self).store.next_id < u64::MAX,
            event matches Event::Diff { result: Ok(d), .. } ==> d.wf(),
        ensures
            final(self).wf(),
            old(self).woken(*final(self), event, r@),
    {
        let mut out: Vec<Deed> = Vec::new();
        match event {
            Event::Key(key) => self.on_key(key),
            Event::Mouse(kind, y) => self.on_mouse(kind, y),
            Event::Connected => {
                self.on_connected();
                out.push(Deed::Say(ToList::Ready { proto: PROTO }));
                assert(out@ =~= seq![Deed::Say(ToList::Ready { proto: PROTO })]);
            },
            Event::Ipc { msg, base } => match msg {
                ToPreview::Edit { file } => {
                    let ghost f = file;
                    out.push(Deed::Edit { file });
                    assert(out@ =~= seq![Deed::Edit { file: f }]);
                },
                ToPreview::GitInPane { argv } => {
                    let ghost a = argv;
                    out.push(Deed::Git { argv });
                    assert(out@ =~= seq![Deed::Git { argv: a }]);
                },
                other => {
                    return diff_deeds(self.on_ipc(other, base));
                },
            },
            Event::IpcClosed => {
                self.should_quit = true;
            },
            Event::Diff { req, result } => self.apply_diff(&req, result),
            Event::Reply(msg) => self.on_reply(msg),
        }
        out
    }

    /// What is to be done when the terminal is back: what is on screen may have
    /// changed, and the list is told.
    pub fn back(&self, say: ToList) -> (r: Vec<Deed>)
        ensures
            match self.current {
                Some(c) => {
                    &&& r@.len() == 2
                    &&& r@[0] matches Deed::Diff(req)
                    &&& req.deep_view() == c.deep_view()
                    &&& r@[1] == Deed::Say(say)
                },
                None => r@ == seq![Deed::Say(say)],
            },
    {
        let mut out: Vec<Deed> = Vec::new();
        match &self.current {
            Some(c) => {
                out.push(Deed::Diff(c.copy()));
            },
            None => {},
        }
        out.push(Deed::Say(say));
        assert(self.current is None ==> out@ =~= seq![Deed::Say(say)]);
        out
    }

    /// What is done between events: a popup is asked for, the list is told what
    /// it should know, and the link is dropped when the pane ends. `told` is the
    /// revision of the notes that the list knows.
    pub fn tick(&mut self, connected: bool, told: u64, popup_open: bool) -> (r: Round)
        ensures
            r.pick == (old(self).popup_request is Some && !popup_open),
            *final(self) == (PreviewApp {
                popup_request: if r.pick {
                    None
                } else {
                    old(self).popup_request
                },
                notes_view_request: false,
                edit_request: false,
                ..*old(self)
            }),
            r.hang_up == old(self).should_quit,
            r.told == if connected {
                old(self).notes_rev
            } else {
                told
            },
            ({
                let asked = (if old(self).notes_view_request {
                    seq![ToList::ShowNotesView]
                } else {
                    seq![]
                }) + (if old(self).edit_request {
                    seq![ToList::EditRequest]
                } else {
                    seq![]
                });
                if connected && old(self).notes_rev != told {
                    &&& r.say@.len() == asked.len() + 1
                    &&& r.say@.take(asked.len() as int) == asked
                    &&& old(self).told_in(r.say@.last())
                } else {
                    r.say@ == asked
                }
            }),
    {
        let pick: bool = self.take_popup(popup_open);
        let mut say: Vec<ToList> = self.take_requests();
        let ghost asked = say@;
        match self.notes_to_tell(connected, told) {
            Some(m) => {
                say.push(m);
                assert(say@.take(asked.len() as int) =~= asked);
            },
            None => {},
        }
        let told: u64 = if connected {
            self.notes_rev
        } else {
            told
        };
        Round { pick, say, told, hang_up: self.should_quit }
    }

    /// A message that holds every conversation as it is.
    pub open spec fn told_in(self, m: ToList) -> bool {
        &&& m matches ToList::Notes { notes }
        &&& notes@.len() == self.store.threads@.len()
        &&& forall|i: int|
            0 <= i < notes@.len() ==> self.store.threads@[i].told_as(#[trigger] notes@[i])
    }
}

/// What a round asks for.
pub struct Round {
    /// Have an agent picked in a popup.
    pub pick: bool,
    pub say: Vec<ToList>,
    /// The revision of the notes that the list knows then.
    pub told: u64,
    /// Drop the link to the list.
    pub hang_up: bool,
}

} // verus!
