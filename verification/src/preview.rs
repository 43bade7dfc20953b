//! The state of the diff pane: what it shows, where the cursor is, the review's
//! conversations, and the box that a note is written in.
//!
//! It holds no terminal and no file. The run loop feeds it messages, key
//! presses and diffs; what it wants done is left in its request fields.

use std::collections::HashSet;

use vstd::prelude::*;

use crate::card::MIN_WIDTH;
use crate::config::{Config, Theme};
use crate::docview::{last_of, least, most, DocView, ViewV};
use crate::git::{ChangeKind, Scope};
use crate::git_repo::Repo;
use crate::keymap::Keymap;
use crate::layout::{composer_block, page, sync_doc, thread_blocks, Around, Boxed, Target};
use crate::path::{is_same_file, same_file};
use crate::render::{opened, DiffDoc};
use crate::rows::RowV;
use crate::splice::{to_base, CardV, Spliced};
use crate::style::{Line, LineV};
use crate::text::{deep, group_deep, same};
use crate::textarea::TextArea;
use crate::thread::{Anchor, Thread, ThreadStore};

verus! {

/// A diff that was asked for.
#[derive(Debug, Clone, PartialEq, Eq)]
pub struct ShowReq {
    pub file: String,
    pub orig_path: Option<String>,
    pub scope: Scope,
    pub cached: bool,
    pub kind: ChangeKind,
    /// The commit whose change to the file is meant.
    pub commit: Option<String>,
}

#[verifier::ext_equal]
pub struct ReqV {
    pub file: Seq<char>,
    pub orig_path: Option<Seq<char>>,
    pub scope: Scope,
    pub cached: bool,
    pub kind: ChangeKind,
    pub commit: Option<Seq<char>>,
}

impl DeepView for ShowReq {
    type V = ReqV;

    open spec fn deep_view(&self) -> ReqV {
        ReqV {
            file: self.file@,
            orig_path: self.orig_path.deep_view(),
            scope: self.scope,
            cached: self.cached,
            kind: self.kind,
            commit: self.commit.deep_view(),
        }
    }
}

pub(crate) fn same_option(a: &Option<String>, b: &Option<String>) -> (r: bool)
    ensures
        r == (a.deep_view() == b.deep_view()),
{
    match (a, b) {
        (Some(x), Some(y)) => same(x.as_str(), y.as_str()),
        (None, None) => true,
        _ => false,
    }
}

impl ReqV {
    /// Whether two requests ask for the same diff.
    pub open spec fn asks_as(self, o: ReqV) -> bool {
        &&& same_file(self.file, o.file)
        &&& match (self.orig_path, o.orig_path) {
            (Some(a), Some(b)) => same_file(a, b),
            (None, None) => true,
            _ => false,
        }
        &&& self.scope == o.scope
        &&& self.cached == o.cached
        &&& self.kind == o.kind
        &&& self.commit == o.commit
    }
}

impl ShowReq {
    /// Whether two requests ask for the same diff.
    pub fn is(&self, o: &ShowReq) -> (r: bool)
        ensures
            r == self.deep_view().asks_as(o.deep_view()),
    {
        let renamed: bool = match (&self.orig_path, &o.orig_path) {
            (Some(a), Some(b)) => is_same_file(a.as_str(), b.as_str()),
            (None, None) => true,
            _ => false,
        };
        renamed && is_same_file(self.file.as_str(), o.file.as_str())
            && self.scope == o.scope && self.cached == o.cached && self.kind == o.kind
            && same_option(&self.commit, &o.commit)
    }
}

/// The subject of the open box: where it hangs and what it will do.
#[derive(Debug, Clone)]
pub struct Pending {
    pub anchor: Anchor,
    pub target: Target,
}

/// The open box.
pub struct Composer {
    /// The conversation whose card it stands in for.
    pub editing: Option<u64>,
    /// Its text.
    pub input: TextArea,
}

/// What a key press did to the open box.
#[derive(Debug, Clone, Copy, PartialEq, Eq, Structural)]
pub enum Outcome {
    Ignored,
    /// The text or the caret changed.
    Edited,
    Save,
    Cancel,
}

/// A popup that the run loop should open.
#[derive(Debug, Clone, Copy, PartialEq, Eq, Structural)]
pub enum PopupReq {
    PickAgent,
}

pub enum State {
    /// Nothing to show, and why.
    Splash(&'static str),
    /// A diff is on screen.
    Diff,
    /// The file has no change in this view.
    Empty,
    /// The file is not text.
    Binary,
    /// The diff could not be made.
    Error(String),
    /// The message of this commit is on screen.
    Message(String),
}

/// What the mouse did.
#[derive(Debug, Clone, Copy, PartialEq, Eq, Structural)]
pub enum Mouse {
    ScrollDown,
    ScrollUp,
    /// The left button went down.
    Down,
    /// The mouse moved with the left button down.
    Drag,
    Other,
}

pub struct PreviewApp {
    pub cfg: Config,
    pub repo: Repo,
    pub keys: Keymap,
    /// The diff last asked for.
    pub current: Option<ShowReq>,
    /// The diff on screen.
    pub built: Option<DiffDoc>,
    pub view: DocView,
    /// The first inserted line, where an editor should open.
    pub first_change: Option<u32>,
    /// What branch diffs are taken against.
    pub base: Option<String>,
    pub store: ThreadStore,
    pub store_path: String,
    pub pending: Option<Pending>,
    pub composer: Option<Composer>,
    pub popup_request: Option<PopupReq>,
    /// Ask the list pane for its notes view.
    pub notes_view_request: bool,
    /// Ask the list pane to open the editor.
    pub edit_request: bool,
    /// Write the store to disk.
    pub save_request: bool,
    /// Stamp the pending anchor with the blob and the commit on disk.
    pub stamp_request: bool,
    /// The file that the document was made for.
    pub shown_file: Option<String>,
    pub collapsed: HashSet<u64>,
    /// Conversations that are with the reply worker.
    pub in_flight: HashSet<u64>,
    /// The conversation to scroll to when its diff comes.
    pub pending_focus: Option<u64>,
    /// Raised whenever the conversations change.
    pub notes_rev: u64,
    /// A message for the footer, and when it came.
    pub flash: Option<(String, u64)>,
    /// The run loop's clock, in milliseconds.
    pub now: u64,
    pub state: State,
    pub should_quit: bool,
    /// Whether quitting should take the whole view down.
    pub close_view: bool,
}

/// How long a message stays, in milliseconds.
pub const FLASH_MS: u64 = 3000;

/// The width that cards are laid out in.
pub open spec fn card_width(width: int) -> int {
    most(width, MIN_WIDTH as int)
}

/// What the document is made of.
pub struct SceneV {
    pub built: Option<DiffDoc>,
    pub current: Option<ShowReq>,
    pub threads: Seq<Thread>,
    pub pending: Option<Pending>,
    pub composer: Option<Composer>,
    pub collapsed: Set<u64>,
    pub in_flight: Set<u64>,
    pub theme: Theme,
    pub active: bool,
}

impl SceneV {
    pub open spec fn editing(self) -> Option<u64> {
        match self.composer {
            Some(c) => c.editing,
            None => None,
        }
    }

    /// The cards of the pane.
    pub open spec fn blocks(self, rows: Seq<RowV>, width: int) -> Seq<CardV> {
        match self.current {
            None => Seq::empty(),
            Some(req) => {
                let s = thread_blocks(
                    self.threads,
                    req.file@,
                    self.editing(),
                    rows,
                    card_width(width),
                    self.theme,
                    self.collapsed,
                    self.in_flight,
                );
                let (start, end, target) = match self.pending {
                    Some(p) => (p.anchor.start, p.anchor.end, Some(p.target)),
                    None => (0u32, 0u32, None),
                };
                match self.composer {
                    Some(c) => s.push(
                        composer_block(
                            start,
                            end,
                            target,
                            c.input.model(),
                            rows,
                            card_width(width),
                            self.theme,
                        ),
                    ),
                    None => s,
                }
            },
        }
    }

    /// The view with the document laid out anew from the diff, the cards and
    /// the box. Without a diff the document stays.
    #[verifier::opaque]
    pub open spec fn laid_out(self, v: ViewV) -> ViewV {
        match self.built {
            Some(b) => {
                let p = page(deep(b.text@), self.blocks(b.model(), v.width), b.model());
                ViewV {
                    doc: p.doc,
                    card_lines: p.card_lines,
                    card_starts: p.card_starts,
                    composer_span: p.composer_span,
                    saved: Seq::empty(),
                    ..v
                }
            },
            None => ViewV { saved: Seq::empty(), ..v },
        }
    }

    /// The view laid out anew: the cursor off the cards, the tint in place.
    #[verifier::opaque]
    pub open spec fn rebuilt(self, v: ViewV) -> ViewV {
        let w = self.laid_out(v);
        ViewV { cursor: w.off_cards(w.cursor, false), ..w }.restyled(self.active, self.theme)
    }
}

impl PreviewApp {
    pub open spec fn wf(self) -> bool {
        &&& self.view.wf()
        &&& self.keys.wf()
        &&& self.store.wf()
        &&& self.built matches Some(b) ==> b.wf()
        &&& self.composer matches Some(c) ==> c.input.wf()
    }

    /// Whether a diff is on screen.
    pub open spec fn active(self) -> bool {
        self.state is Diff
    }

    /// What the document is made of.
    pub open spec fn scene(self) -> SceneV {
        SceneV {
            built: self.built,
            current: self.current,
            threads: self.store.threads@,
            pending: self.pending,
            composer: self.composer,
            collapsed: self.collapsed@,
            in_flight: self.in_flight@,
            theme: self.cfg.theme,
            active: self.active(),
        }
    }

    /// The view laid out anew.
    pub open spec fn rebuilt(self, v: ViewV) -> ViewV {
        self.scene().rebuilt(v)
    }

    /// The pane as it starts, with the conversations of an earlier run.
    pub fn new(cfg: Config, repo: Repo, keys: Keymap, store_path: String, store: ThreadStore, note: Option<String>, now: u64) -> (r: PreviewApp)
        requires
            keys.wf(),
            store.wf(),
        ensures
            r.wf(),
            r.cfg == cfg,
            r.repo == repo,
            r.keys == keys,
            r.store == store,
            r.store_path == store_path,
            r.state matches State::Splash(s) && s@ == "waiting for file list…"@,
            r.notes_rev == if store.threads@.len() > 0 {
                1u64
            } else {
                0u64
            },
            match note {
                Some(n) => r.flash == Some((n, now)),
                None => r.flash is None,
            },
            r.now == now,
            r.current is None && r.built is None && r.first_change is None && r.base is None,
            r.pending is None && r.composer is None && r.popup_request is None,
            !r.notes_view_request && !r.edit_request && !r.save_request && !r.stamp_request,
            r.shown_file is None && r.pending_focus is None,
            r.collapsed@ == Set::<u64>::empty() && r.in_flight@ == Set::<u64>::empty(),
            !r.should_quit && !r.close_view,
            r.view.model() == ViewV::blank(),
    {
        let notes_rev: u64 = if store.is_empty() {
            0
        } else {
            1
        };
        PreviewApp {
            cfg,
            repo,
            keys,
            current: None,
            built: None,
            view: DocView::new(),
            first_change: None,
            base: None,
            store,
            store_path,
            pending: None,
            composer: None,
            popup_request: None,
            notes_view_request: false,
            edit_request: false,
            save_request: false,
            stamp_request: false,
            shown_file: None,
            collapsed: HashSet::new(),
            in_flight: HashSet::new(),
            pending_focus: None,
            notes_rev,
            flash: match note {
                Some(n) => Some((n, now)),
                None => None,
            },
            now,
            state: State::Splash("waiting for file list…"),
            should_quit: false,
            close_view: false,
        }
    }

    /// The conversations, oldest first.
    pub fn threads(&self) -> (r: &Vec<Thread>)
        ensures
            *r == self.store.threads,
    {
        &self.store.threads
    }

    pub fn showing_diff(&self) -> (r: bool)
        ensures
            r == self.active(),
    {
        match &self.state {
            State::Diff => true,
            _ => false,
        }
    }

    /// Tell the user something.
    pub fn flash(&mut self, msg: &str)
        ensures
            *final(self) == (PreviewApp { flash: final(self).flash, ..*old(self) }),
            final(self).flash matches Some(f) && f.0@ == msg@ && f.1 == old(self).now,
    {
        self.flash = Some((msg.to_owned(), self.now));
    }

    /// The message to show, while it is fresh.
    pub fn active_flash(&self) -> (r: Option<&str>)
        ensures
            match self.flash {
                Some(f) if self.now - f.1 < FLASH_MS => r matches Some(s) && s@ == f.0@,
                _ => r is None,
            },
    {
        match &self.flash {
            Some(f) => {
                if self.now < f.1 || self.now - f.1 < FLASH_MS {
                    Some(f.0.as_str())
                } else {
                    None
                }
            },
            None => None,
        }
    }

    /// The pane after the list connected: it waits no longer.
    pub open spec fn met(self, after: PreviewApp) -> bool {
        &&& after == (PreviewApp { state: after.state, ..self })
        &&& if self.current is None {
            after.state matches State::Splash(s) && s@ == "no file selected"@
        } else {
            after.state == self.state
        }
    }

    /// The list pane is there.
    pub fn on_connected(&mut self)
        ensures
            old(self).met(*final(self)),
    {
        if self.current.is_none() {
            self.state = State::Splash("no file selected");
        }
    }

    fn empty_doc(&mut self)
        requires
            old(self).wf(),
        ensures
            final(self).wf(),
            *final(self) == (PreviewApp { view: final(self).view, built: None, ..*old(self) }),
            final(self).view.model() == (ViewV {
                doc: Seq::empty(),
                saved: Seq::empty(),
                ..old(self).view.model()
            }).rewrapped(),
    {
        broadcast use group_deep;

        self.built = None;
        self.view.saved_tint = Vec::new();
        self.view.doc = Vec::new();
        proof {
            assert(self.view.model().saved =~= Seq::<(usize, LineV)>::empty());
            assert(self.view.model().doc =~= Seq::<LineV>::empty());
        }
        self.view.sync_wrapped();
    }

    /// Nothing is selected any more.
    pub fn clear(&mut self)
        requires
            old(self).wf(),
        ensures
            final(self).wf(),
            *final(self) == (PreviewApp {
                current: None,
                built: None,
                shown_file: None,
                first_change: None,
                view: final(self).view,
                state: final(self).state,
                ..*old(self)
            }),
            final(self).state matches State::Splash(s) && s@ == "no file selected"@,
            final(self).view.model() == (ViewV {
                doc: Seq::empty(),
                saved: Seq::empty(),
                scroll: 0,
                ..old(self).view.model()
            }).rewrapped(),
    {
        self.current = None;
        self.shown_file = None;
        self.empty_doc();
        self.first_change = None;
        self.view.scroll = 0;
        self.state = State::Splash("no file selected");
    }

    /// Whether a request of this scope needs the branch's base to be found.
    pub fn needs_base(&self, scope: Scope) -> (r: bool)
        ensures
            r == (scope == Scope::Branch && self.base is None),
    {
        scope == Scope::Branch && self.base.is_none()
    }

    /// Note what is to be shown. Another file starts at its top; the document
    /// stays until the diff comes.
    pub fn begin_show(&mut self, req: ShowReq, base: Option<String>)
        ensures
            *final(self) == (PreviewApp {
                current: Some(req),
                base: if req.scope == Scope::Branch && old(self).base is None {
                    base
                } else {
                    old(self).base
                },
                view: DocView {
                    scroll: if old(self).current matches Some(c) && same_file(c.file@, req.file@) {
                        old(self).view.scroll
                    } else {
                        0
                    },
                    ..old(self).view
                },
                ..*old(self)
            }),
    {
        let again: bool = match &self.current {
            Some(c) => is_same_file(c.file.as_str(), req.file.as_str()),
            None => false,
        };
        if !again {
            self.view.scroll = 0;
        }
        if self.needs_base(req.scope) {
            self.base = base;
        }
        self.current = Some(req);
    }

    /// Take a diff, unless something else has been asked for since.
    pub fn apply_diff(&mut self, req: &ShowReq, result: Result<DiffDoc, String>)
        requires
            old(self).wf(),
            result matches Ok(d) ==> d.wf(),
        ensures
            final(self).wf(),
            if !(old(self).current matches Some(c) && c.deep_view().asks_as(
                req.deep_view(),
            )) {
                *final(self) == *old(self)
            } else {
                match result {
                    Ok(d) => old(self).shows(*final(self), d),
                    Err(msg) => *final(self) == (PreviewApp { state: State::Error(msg), ..*old(self) }),
                }
            },
    {
        let fresh: bool = match &self.current {
            Some(c) => c.is(req),
            None => false,
        };
        if !fresh {
            return;
        }
        match result {
            Ok(d) => self.set_diff(d),
            Err(msg) => {
                self.state = State::Error(msg);
            },
        }
    }

    /// The pane after a diff came. A diff that is not text, or shows no change,
    /// leaves an empty document. The cursor and the selection stay where the
    /// diff is of the same file. A conversation that was waited for is scrolled
    /// to.
    pub open spec fn shows(self, after: PreviewApp, d: DiffDoc) -> bool {
        let v = self.view.model();
        if d.binary || d.is_empty {
            &&& after == (PreviewApp {
                first_change: d.first_change,
                built: None,
                view: after.view,
                state: if d.binary {
                    State::Binary
                } else {
                    State::Empty
                },
                ..self
            })
            &&& after.view.model() == ViewV { doc: Seq::empty(), saved: Seq::empty(), ..v }.rewrapped().held()
        } else {
            let again = match (self.current, self.shown_file) {
                (Some(c), Some(f)) => same_file(c.file@, f@),
                _ => false,
            };
            let start = if again {
                v
            } else {
                ViewV { cursor: 0, select: None, ..v }
            };
            &&& after == (PreviewApp {
                first_change: d.first_change,
                built: Some(d),
                view: after.view,
                state: State::Diff,
                shown_file: after.shown_file,
                pending_focus: None,
                ..self
            })
            &&& match (self.current, after.shown_file) {
                (Some(c), Some(f)) => f@ == c.file@,
                (None, None) => true,
                _ => false,
            }
            &&& after.view.model() == match self.pending_focus {
                Some(id) => after.rebuilt(start.held()).at_note(id, true, self.cfg.theme),
                None => after.rebuilt(start.held()),
            }
        }
    }

    fn set_diff(&mut self, built: DiffDoc)
        requires
            old(self).wf(),
            built.wf(),
        ensures
            final(self).wf(),
            old(self).shows(*final(self), built),
    {
        self.first_change = built.first_change;
        if built.binary || built.is_empty {
            let binary: bool = built.binary;
            self.empty_doc();
            self.state = if binary {
                State::Binary
            } else {
                State::Empty
            };
            self.view.clamp_scroll();
            return;
        }
        let again: bool = match (&self.current, &self.shown_file) {
            (Some(c), Some(f)) => is_same_file(c.file.as_str(), f.as_str()),
            _ => false,
        };
        self.shown_file = match &self.current {
            Some(c) => Some(c.file.as_str().to_owned()),
            None => None,
        };
        self.built = Some(built);
        if !again {
            self.view.cursor_line = 0;
            self.view.select_anchor = None;
        }
        self.state = State::Diff;
        self.view.clamp_scroll();
        self.rebuild();
        let focus: Option<u64> = self.pending_focus;
        self.pending_focus = None;
        match focus {
            Some(id) => self.view.scroll_to_note(id, true, self.cfg.theme),
            None => {},
        }
    }

    /// Put the document together again.
    fn lay_out(&mut self)
        requires
            old(self).wf(),
        ensures
            final(self).wf(),
            *final(self) == (PreviewApp { view: final(self).view, ..*old(self) }),
            final(self).view.model() == old(self).scene().laid_out(old(self).view.model()),
    {
        proof {
            reveal(SceneV::laid_out);
        }
        let theme = self.cfg.theme;
        let width: usize = if self.view.viewport_w < MIN_WIDTH {
            MIN_WIDTH as usize
        } else {
            self.view.viewport_w as usize
        };
        let made: Option<Spliced> = match &self.built {
            None => None,
            Some(b) => {
                let s: Spliced = match &self.current {
                    None => sync_doc(b, None, width, theme),
                    Some(req) => {
                        let (start, end, target): (u32, u32, Option<Target>) = match &self.pending {
                            Some(p) => (p.anchor.start, p.anchor.end, Some(p.target)),
                            None => (0, 0, None),
                        };
                        let around = Around {
                            file: req.file.as_str(),
                            threads: &self.store.threads,
                            collapsed: &self.collapsed,
                            asking: &self.in_flight,
                            editing: match &self.composer {
                                Some(c) => c.editing,
                                None => None,
                            },
                            composer: match &self.composer {
                                Some(c) => Some(Boxed { start, end, target, input: &c.input }),
                                None => None,
                            },
                        };
                        sync_doc(b, Some(&around), width, theme)
                    },
                };
                Some(s)
            },
        };
        match made {
            Some(s) => {
                let n: usize = s.doc.len();
                assert(n == s.doc@.len());
                self.view.doc = s.doc;
                self.view.card_lines = s.card_lines;
                self.view.card_starts = s.card_starts;
                self.view.composer_span = s.composer_span;
            },
            None => {},
        }
        self.view.saved_tint = Vec::new();
        proof {
            assert(self.view.model().saved =~= Seq::<(usize, LineV)>::empty());
        }
    }

    pub(crate) fn rebuild(&mut self)
        requires
            old(self).wf(),
        ensures
            final(self).wf(),
            *final(self) == (PreviewApp { view: final(self).view, ..*old(self) }),
            final(self).view.model() == old(self).rebuilt(old(self).view.model()),
    {
        proof {
            reveal(SceneV::rebuilt);
        }
        self.lay_out();
        self.view.cursor_line = self.view.snap_off_card(self.view.cursor_line, false);
        let active: bool = self.showing_diff();
        self.view.restyle(active, self.cfg.theme);
    }

    /// The size of the pane. Another width lays the cards out anew.
    pub fn set_viewport(&mut self, w: u16, h: u16)
        requires
            old(self).wf(),
        ensures
            final(self).wf(),
            *final(self) == (PreviewApp { view: final(self).view, ..*old(self) }),
            ({
                let v = ViewV { height: h as int, width: w as int, ..old(self).view.model() };
                final(self).view.model() == if old(self).view.viewport_w == w {
                    v.held()
                } else if old(self).active() {
                    old(self).rebuilt(v).held()
                } else {
                    v.rewrapped().held()
                }
            }),
    {
        self.view.viewport_h = h;
        if self.view.viewport_w != w {
            self.view.viewport_w = w;
            if self.showing_diff() {
                self.rebuild();
            } else {
                self.view.sync_wrapped();
            }
        }
        self.view.clamp_scroll();
    }

    /// The rows that are painted.
    pub fn wrapped_text(&self) -> (r: &Vec<Line>)
        ensures
            deep(r@) == self.view.model().rows,
    {
        &self.view.wrapped.text
    }

    /// The first and the last row of a line.
    pub fn row_span_of_line(&self, line: usize) -> (r: (usize, usize))
        ensures
            (r.0 as int, r.1 as int) == self.view.model().rows_of(line as int),
    {
        self.view.row_span_of_line(line)
    }

    /// The selected lines, first and last.
    pub fn selection(&self) -> (r: (usize, usize))
        ensures
            (r.0 as int, r.1 as int) == self.view.model().selected(),
    {
        self.view.selection()
    }

    pub fn scroll_by(&mut self, delta: i32)
        requires
            old(self).wf(),
        ensures
            final(self).wf(),
            *final(self) == (PreviewApp { view: final(self).view, ..*old(self) }),
            final(self).view.model() == old(self).view.model().scrolled(
                delta,
                old(self).active(),
                old(self).cfg.theme,
            ),
    {
        let active: bool = self.showing_diff();
        self.view.scroll_by(delta, active, self.cfg.theme);
    }

    pub fn page(&mut self, down: bool, full: bool)
        requires
            old(self).wf(),
        ensures
            final(self).wf(),
            *final(self) == (PreviewApp { view: final(self).view, ..*old(self) }),
            ({
                let n = old(self).view.model().page_rows(full);
                final(self).view.model() == old(self).view.model().scrolled(
                    (if down { n } else { -n }) as i32,
                    old(self).active(),
                    old(self).cfg.theme,
                )
            }),
    {
        let active: bool = self.showing_diff();
        self.view.page(down, full, active, self.cfg.theme);
    }

    /// The number of the line at the cursor: its new one, or its old one where
    /// it was deleted.
    pub fn cursor_file_line(&self) -> (r: Option<u32>)
        requires
            self.wf(),
        ensures
            r == self.file_line(),
    {
        match &self.built {
            None => None,
            Some(b) => match self.view.doc_to_built(self.view.cursor_line) {
                None => None,
                Some(k) => match b.numbers_of_line(k) {
                    None => None,
                    Some((old_no, new_no)) => match new_no {
                        Some(n) => Some(n),
                        None => old_no,
                    },
                },
            },
        }
    }

    pub open spec fn file_line(self) -> Option<u32> {
        match (self.built, to_base(self.view.model().card_lines, self.view.model().cursor)) {
            (Some(b), Some(k)) => if 0 <= k < b.model().len() && b.model()[k] is Code {
                let l = b.model()[k]->Code_0;
                if l.new_no is Some {
                    l.new_no
                } else {
                    l.old_no
                }
            } else {
                None
            },
            _ => None,
        }
    }

    // ---- the mouse ---------------------------------------------------------------

    /// The fold under a row of the pane, if there is one.
    pub open spec fn fold_at(self, line: int) -> Option<int> {
        match (self.built, to_base(self.view.model().card_lines, line)) {
            (Some(b), Some(k)) => if 0 <= k < b.model().len() && b.model()[k] is Fold {
                Some(k)
            } else {
                None
            },
            _ => None,
        }
    }

    /// The pane after the left button went down on a line: a fold opens, any
    /// other line of the source takes the cursor, a card does nothing.
    pub open spec fn clicked(self, after: PreviewApp, line: int) -> bool {
        let v = self.view.model();
        match self.fold_at(line) {
            Some(k) => {
                &&& after == (PreviewApp { built: after.built, view: after.view, ..self })
                &&& self.built matches Some(b)
                &&& after.built matches Some(c)
                &&& c.model() == opened(b.model(), k)
                &&& c.theme == b.theme && c.default_fg == b.default_fg
                &&& c.first_change == b.first_change && c.is_empty == b.is_empty
                &&& c.binary == b.binary
                &&& after.view.model() == after.rebuilt(v.held())
            },
            None => if !v.is_card(line) && line < v.doc.len() {
                &&& after == (PreviewApp { view: after.view, ..self })
                &&& after.view.model() == ViewV { cursor: line, select: None, ..v }.restyled(
                    self.active(),
                    self.cfg.theme,
                )
            } else {
                after == self
            },
        }
    }

    /// The view after a drag to a line: the selection reaches to the nearest
    /// line there that is no card's.
    pub open spec fn dragged(self, line: int) -> ViewV {
        let v = self.view.model();
        let l = least(line, last_of(v.doc.len()));
        ViewV {
            cursor: v.off_cards(l, l < v.cursor),
            select: if v.select is Some {
                v.select
            } else {
                Some(self.view.cursor_line)
            },
            ..v
        }.restyled(self.active(), self.cfg.theme)
    }

    /// The pane after the mouse did something on a line of the screen.
    pub open spec fn pointed(self, after: PreviewApp, kind: Mouse, y: u16) -> bool {
        let v = self.view.model();
        let line = v.line_at(v.scroll + y - 1);
        match kind {
            Mouse::ScrollDown => {
                &&& after == (PreviewApp { view: after.view, ..self })
                &&& after.view.model() == v.scrolled(
                    3,
                    self.active(),
                    self.cfg.theme,
                )
            },
            Mouse::ScrollUp => {
                &&& after == (PreviewApp { view: after.view, ..self })
                &&& after.view.model() == v.scrolled(
                    -3 as i32,
                    self.active(),
                    self.cfg.theme,
                )
            },
            Mouse::Down if y >= 1 => self.clicked(after, line),
            Mouse::Drag if y >= 1 => {
                &&& after == (PreviewApp { view: after.view, ..self })
                &&& after.view.model() == self.dragged(line)
            },
            _ => after == self,
        }
    }

    /// A mouse event at a row of the pane; the first row is the header.
    pub fn on_mouse(&mut self, kind: Mouse, y: u16)
        requires
            old(self).wf(),
        ensures
            final(self).wf(),
            old(self).pointed(*final(self), kind, y),
    {
        match kind {
            Mouse::ScrollDown => self.scroll_by(3),
            Mouse::ScrollUp => self.scroll_by(-3),
            Mouse::Down => {
                if y >= 1 {
                    let row: usize = self.view.scroll as usize + (y - 1) as usize;
                    let line: usize = self.view.line_of_row(row);
                    self.click(line);
                }
            },
            Mouse::Drag => {
                if y >= 1 {
                    let row: usize = self.view.scroll as usize + (y - 1) as usize;
                    let line: usize = self.view.line_of_row(row);
                    let n: usize = self.view.content_lines();
                    let last: usize = if n == 0 {
                        0
                    } else {
                        n - 1
                    };
                    let l: usize = if line < last {
                        line
                    } else {
                        last
                    };
                    if self.view.select_anchor.is_none() {
                        self.view.select_anchor = Some(self.view.cursor_line);
                    }
                    let back: bool = l < self.view.cursor_line;
                    proof {
                        let v = old(self).view.model();
                        lemma_snap_ignores_select(v, self.view.model(), l as int, back);
                    }
                    self.view.cursor_line = self.view.snap_off_card(l, back);
                    let active: bool = self.showing_diff();
                    self.view.restyle(active, self.cfg.theme);
                }
            },
            Mouse::Other => {},
        }
    }

    fn click(&mut self, line: usize)
        requires
            old(self).wf(),
        ensures
            final(self).wf(),
            old(self).clicked(*final(self), line as int),
    {
        let card: bool = self.view.is_card_line(line);
        let to_built: Option<usize> = self.view.doc_to_built(line);
        let open: bool = match to_built {
            Some(k) => match &mut self.built {
                Some(b) => b.unfold_at(k),
                None => false,
            },
            None => false,
        };
        if open {
            self.view.clamp_scroll();
            self.rebuild();
            return;
        }
        if !card && line < self.view.content_lines() {
            self.view.select_anchor = None;
            self.view.cursor_line = line;
            let active: bool = self.showing_diff();
            self.view.restyle(active, self.cfg.theme);
        }
    }

    /// Move the cursor.
    pub(crate) fn move_cursor(&mut self, delta: i32)
        requires
            old(self).wf(),
        ensures
            final(self).wf(),
            *final(self) == (PreviewApp { view: final(self).view, ..*old(self) }),
            final(self).view.model() == old(self).view.model().moved(
                delta,
                old(self).active(),
                old(self).cfg.theme,
            ),
    {
        let active: bool = self.showing_diff();
        self.view.move_cursor(delta, active, self.cfg.theme);
    }
}

proof fn lemma_snap_ignores_select(v: ViewV, w: ViewV, line: int, back: bool)
    requires
        v.doc == w.doc,
        v.card_lines == w.card_lines,
    ensures
        v.off_cards(line, back) == w.off_cards(line, back),
{
    lemma_free_same(v, w, least(line, last_of(v.doc.len())));
}

proof fn lemma_free_same(v: ViewV, w: ViewV, i: int)
    requires
        v.doc == w.doc,
        v.card_lines == w.card_lines,
    ensures
        v.free_below(i) == w.free_below(i),
        v.free_above(i) == w.free_above(i),
{
    lemma_free_below_same(v, w, i);
    lemma_free_above_same(v, w, i);
}

proof fn lemma_free_below_same(v: ViewV, w: ViewV, i: int)
    requires
        v.doc == w.doc,
        v.card_lines == w.card_lines,
    ensures
        v.free_below(i) == w.free_below(i),
    decreases v.doc.len() - i,
{
    if 0 <= i < v.doc.len() {
        lemma_free_below_same(v, w, i + 1);
    }
}

proof fn lemma_free_above_same(v: ViewV, w: ViewV, i: int)
    requires
        v.doc == w.doc,
        v.card_lines == w.card_lines,
    ensures
        v.free_above(i) == w.free_above(i),
    decreases i + 1,
{
    if i >= 0 {
        lemma_free_above_same(v, w, i - 1);
    }
}

} // verus!
