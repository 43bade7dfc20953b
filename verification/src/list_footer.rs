//! The footer of the list pane, and its help.

use vstd::prelude::*;

use crate::card::dim_style;
use crate::git::{Scope, StageState};
use crate::keymap::{first_text, Action};
use crate::list::{App, STATUS_MS};
use crate::list_input::Ops;
use crate::list_rows::Mode;
use crate::list_ui::{colored, line_of, plain_line};
use crate::style::{accent, info, span, Line, LineV, Span, SpanV, Style};
use crate::text::{concat2, concat3, deep, group_deep, pad_left, padded_left, same};
use crate::wrap::{plus, plus_of, text_cells, text_width};

verus! {

/// A key and what it does, in words.
pub struct Hint {
    pub key: String,
    pub label: String,
}

#[verifier::ext_equal]
pub struct HintV {
    pub key: Seq<char>,
    pub label: Seq<char>,
}

impl DeepView for Hint {
    type V = HintV;

    open spec fn deep_view(&self) -> HintV {
        HintV { key: self.key@, label: self.label@ }
    }
}

pub open spec fn hint_of(key: Seq<char>, label: Seq<char>) -> HintV {
    HintV { key, label }
}

// ---- fitting ------------------------------------------------------------------------------

/// The hints that have a key.
pub open spec fn keyed_hints(s: Seq<HintV>) -> Seq<HintV>
    decreases s.len(),
{
    if s.len() == 0 {
        Seq::empty()
    } else if s.last().key.len() == 0 {
        keyed_hints(s.drop_last())
    } else {
        keyed_hints(s.drop_last()).push(s.last())
    }
}

/// Where the hint for help is, or the number of hints.
pub open spec fn help_place(s: Seq<HintV>, i: int) -> int
    decreases s.len() - i,
{
    if i < 0 || i >= s.len() || s[i].label == "help"@ {
        i
    } else {
        help_place(s, i + 1)
    }
}

pub open spec fn hint_cells(h: HintV) -> nat {
    plus(plus(text_cells(h.key) as nat, text_cells(h.label) as nat), 2)
}

/// The hints taken so far, their cells, and whether one did not fit.
#[verifier::ext_equal]
pub struct TakenV {
    pub kept: Seq<HintV>,
    pub used: nat,
    pub cut: bool,
}

/// The first `n` hints, those that fit. Room is kept for help; once a hint did
/// not fit, only help can follow.
pub open spec fn taken(s: Seq<HintV>, width: nat, n: int) -> TakenV
    decreases n,
{
    if n <= 0 {
        TakenV { kept: Seq::empty(), used: 0, cut: false }
    } else {
        let t = taken(s, width, n - 1);
        let h = s[n - 1];
        let help = help_place(s, 0);
        let w = plus(
            hint_cells(h),
            if t.kept.len() == 0 {
                0
            } else {
                2
            },
        );
        let reserve: nat = if help < s.len() && help > n - 1 && !t.cut {
            plus(hint_cells(s[help]), 2)
        } else {
            0
        };
        if t.cut && h.label != "help"@ {
            t
        } else if plus(plus(t.used, w), reserve) > width {
            TakenV { cut: true, ..t }
        } else {
            TakenV { kept: t.kept.push(h), used: plus(t.used, w), cut: t.cut }
        }
    }
}

/// Hints as they are drawn, with a dot between two.
pub open spec fn hint_spans(s: Seq<HintV>, style: Style) -> Seq<SpanV>
    decreases s.len(),
{
    if s.len() == 0 {
        Seq::empty()
    } else {
        hint_spans(s.drop_last(), style) + (if s.len() > 1 {
            seq![span(" ·"@, dim_style())]
        } else {
            Seq::empty()
        }) + seq![
            span(" "@ + s.last().key + " "@, style),
            span(s.last().label, dim_style()),
        ]
    }
}

pub open spec fn hint_row(s: Seq<HintV>, width: nat) -> Seq<SpanV> {
    let k = keyed_hints(s);
    hint_spans(taken(k, width, k.len() as int).kept, colored(info()))
}

pub(crate) fn cells_of_hint(h: &Hint) -> (r: usize)
    ensures
        r == hint_cells(h.deep_view()),
{
    plus_of(plus_of(text_width(h.key.as_str()), text_width(h.label.as_str())), 2)
}

fn copy_hint(h: &Hint) -> (r: Hint)
    ensures
        r.deep_view() == h.deep_view(),
{
    Hint { key: h.key.as_str().to_owned(), label: h.label.as_str().to_owned() }
}

fn keep_keyed(pairs: &Vec<Hint>) -> (r: Vec<Hint>)
    ensures
        deep(r@) == keyed_hints(deep(pairs@)),
{
    broadcast use group_deep;

    let ghost all = deep(pairs@);
    let mut out: Vec<Hint> = Vec::new();
    let mut i: usize = 0;
    while i < pairs.len()
        invariant
            i <= pairs@.len(),
            all == deep(pairs@),
            deep(out@) == keyed_hints(all.take(i as int)),
        decreases pairs@.len() - i,
    {
        assert(all.take(i + 1).drop_last() =~= all.take(i as int));
        assert(all[i as int] == pairs@[i as int].deep_view());
        if pairs[i].key.as_str().unicode_len() > 0 {
            out.push(copy_hint(&pairs[i]));
        }
        i += 1;
    }
    out
}

fn find_help(pairs: &Vec<Hint>) -> (r: usize)
    ensures
        r == help_place(deep(pairs@), 0),
        r <= pairs@.len(),
{
    let ghost all = deep(pairs@);
    let mut i: usize = 0;
    while i < pairs.len()
        invariant
            i <= pairs@.len(),
            all == deep(pairs@),
            help_place(all, 0) == help_place(all, i as int),
        decreases pairs@.len() - i,
    {
        assert(all[i as int] == pairs@[i as int].deep_view());
        if same(pairs[i].label.as_str(), "help") {
            return i;
        }
        i += 1;
    }
    i
}

pub(crate) fn spans_of_hints(kept: &Vec<Hint>, style: Style) -> (r: Vec<Span>)
    ensures
        deep(r@) == hint_spans(deep(kept@), style),
{
    broadcast use group_deep;

    let ghost all = deep(kept@);
    let mut out: Vec<Span> = Vec::new();
    let mut i: usize = 0;
    while i < kept.len()
        invariant
            i <= kept@.len(),
            all == deep(kept@),
            deep(out@) == hint_spans(all.take(i as int), style),
        decreases kept@.len() - i,
    {
        let ghost before = deep(out@);
        assert(all.take(i + 1).drop_last() =~= all.take(i as int));
        assert(all.take(i + 1).last() == kept@[i as int].deep_view());
        if i > 0 {
            out.push(Span::styled(" ·".to_owned(), dim_style()));
        }
        out.push(Span::styled(concat3(" ", kept[i].key.as_str(), " "), style));
        out.push(Span::styled(kept[i].label.as_str().to_owned(), dim_style()));
        assert(deep(out@) =~= hint_spans(all.take(i + 1), style));
        i += 1;
    }
    out
}

/// The hints that fit into a line.
pub fn hint_line(pairs: &Vec<Hint>, width: usize) -> (r: Line)
    ensures
        r.deep_view() == plain_line(hint_row(deep(pairs@), width as nat)),
{
    broadcast use group_deep;

    let pairs: Vec<Hint> = keep_keyed(pairs);
    let ghost all = deep(pairs@);
    let n: usize = pairs.len();
    let help: usize = find_help(&pairs);
    let help_w: usize = if help < n {
        plus_of(cells_of_hint(&pairs[help]), 2)
    } else {
        0
    };
    let mut kept: Vec<Hint> = Vec::new();
    let mut used: usize = 0;
    let mut cut: bool = false;
    let mut i: usize = 0;
    while i < n
        invariant
            i <= n == pairs@.len(),
            all == deep(pairs@),
            help == help_place(all, 0),
            help < n ==> help_w == plus(hint_cells(all[help as int]), 2),
            (TakenV { kept: deep(kept@), used: used as nat, cut }) == taken(all, width as nat, i as int),
        decreases n - i,
    {
        let ghost t = taken(all, width as nat, i as int);
        assert(all[i as int] == pairs@[i as int].deep_view());
        assert(deep(kept@).len() == kept@.len());
        let is_help: bool = same(pairs[i].label.as_str(), "help");
        if !cut || is_help {
            let w: usize = plus_of(
                cells_of_hint(&pairs[i]),
                if kept.len() == 0 {
                    0
                } else {
                    2
                },
            );
            let reserve: usize = if help < n && help > i && !cut {
                help_w
            } else {
                0
            };
            if plus_of(plus_of(used, w), reserve) > width {
                cut = true;
            } else {
                used = plus_of(used, w);
                kept.push(copy_hint(&pairs[i]));
            }
        }
        i += 1;
    }
    line_of(spans_of_hints(&kept, Style::new().fg(info())))
}

// ---- the footer of each view -----------------------------------------------------------------

/// A key's name in the footer.
pub open spec fn key_sign(s: Seq<char>) -> Seq<char> {
    if s == "enter"@ {
        "↵"@
    } else {
        s
    }
}

pub fn sym(hint: String) -> (r: String)
    ensures
        r@ == key_sign(hint@),
{
    if same(hint.as_str(), "enter") {
        "↵".to_owned()
    } else {
        hint
    }
}

impl App {
    pub open spec fn hint_for(self, action: Action, label: Seq<char>) -> HintV {
        hint_of(key_sign(first_text(self.keys.entries(), action)), label)
    }

    /// The comparison that is not on screen.
    pub open spec fn other_scope(self) -> Seq<char> {
        match self.scope {
            Scope::Worktree => "vs "@ + self.base_text(),
            Scope::Branch => "uncommitted"@,
        }
    }

    /// Whether anything is staged.
    pub open spec fn any_staged(self) -> bool {
        exists|i: int|
            0 <= i < self.entries@.len() && ((#[trigger] self.entries@[i]).stage == StageState::Staged
                || self.entries@[i].stage == StageState::Partial)
    }

    /// What the keys do here. Only what can be done is offered.
    pub open spec fn hints(self) -> Seq<HintV> {
        let back = seq![self.hint_for(Action::Quit, "back"@), self.hint_for(Action::Help, "help"@)];
        match self.mode {
            Mode::Log => (if self.commits@.len() > 0 {
                seq![
                    self.hint_for(Action::Edit, "show commit"@),
                    self.hint_for(Action::CommitMessage, "message"@),
                ]
            } else {
                seq![]
            }) + seq![
                self.hint_for(
                    Action::ToggleScope,
                    if self.log_branch_only {
                        "all commits"@
                    } else {
                        "branch only"@
                    },
                ),
            ] + back,
            Mode::CommitFiles => (if self.entries@.len() > 0 {
                seq![
                    self.hint_for(Action::Edit, "edit"@),
                    self.hint_for(Action::HalfPageDown, "scroll"@),
                ]
            } else {
                seq![]
            }) + seq![self.hint_for(Action::CommitMessage, "message"@)] + back,
            Mode::Notes => seq![
                self.hint_for(Action::Edit, "edit note"@),
                self.hint_for(Action::Delete, "delete"@),
                self.hint_for(Action::SendNotes, "send"@),
            ] + back,
            Mode::Files => self.file_hints(),
        }
    }

    pub open spec fn some_hint(self, offered: bool, action: Action, label: Seq<char>) -> Seq<HintV> {
        if offered {
            seq![self.hint_for(action, label)]
        } else {
            seq![]
        }
    }

    pub open spec fn file_hints(self) -> Seq<HintV> {
        let has_files = self.entries@.len() > 0;
        let worktree = self.scope == Scope::Worktree;
        let ops = self.ops();
        self.some_hint(has_files, Action::Edit, "edit"@) + self.some_hint(
            ops.stage,
            Action::Stage,
            if ops.stage_unstages {
                "unstage"@
            } else {
                "stage"@
            },
        ) + self.some_hint(
            ops.unstage && !ops.stage_unstages,
            Action::Unstage,
            "unstage"@,
        ) + self.some_hint(ops.discard, Action::Discard, "discard"@) + self.some_hint(
            worktree && self.any_staged(),
            Action::Commit,
            "commit"@,
        ) + self.some_hint(worktree && has_files, Action::Annotate, "note"@) + self.some_hint(
            self.notes@.len() > 0,
            Action::NotesView,
            "notes"@,
        ) + seq![
            self.hint_for(Action::ToggleScope, self.other_scope()),
            self.hint_for(Action::Log, "log"@),
            self.hint_for(Action::Help, "help"@),
            self.hint_for(Action::Quit, "quit"@),
        ]
    }

    fn push_hint(&self, out: &mut Vec<Hint>, action: Action, label: &str)
        ensures
            deep(final(out)@) == deep(old(out)@).push(self.hint_for(action, label@)),
    {
        broadcast use group_deep;

        let key: String = sym(self.keys.hint(action));
        out.push(Hint { key, label: label.to_owned() });
    }

    fn push_if(&self, out: &mut Vec<Hint>, offered: bool, action: Action, label: &str)
        ensures
            deep(final(out)@) == deep(old(out)@) + self.some_hint(offered, action, label@),
    {
        if offered {
            self.push_hint(out, action, label);
        }
        assert(deep(out@) =~= deep(old(out)@) + self.some_hint(offered, action, label@));
    }

    fn has_staged(&self) -> (r: bool)
        ensures
            r == self.any_staged(),
    {
        let mut i: usize = 0;
        while i < self.entries.len()
            invariant
                i <= self.entries@.len(),
                forall|k: int|
                    0 <= k < i ==> (#[trigger] self.entries@[k]).stage != StageState::Staged
                        && self.entries@[k].stage != StageState::Partial,
            decreases self.entries@.len() - i,
        {
            if self.entries[i].stage == StageState::Staged || self.entries[i].stage
                == StageState::Partial {
                return true;
            }
            i += 1;
        }
        false
    }

    fn hints_of_files(&self) -> (r: Vec<Hint>)
        ensures
            deep(r@) == self.file_hints(),
    {
        broadcast use group_deep;

        let has_files: bool = self.entries.len() > 0;
        let worktree: bool = self.scope == Scope::Worktree;
        let ops: Ops = self.selection_ops();
        let other: String = match self.scope {
            Scope::Worktree => concat2("vs ", self.base_or_default().as_str()),
            Scope::Branch => "uncommitted".to_owned(),
        };
        let mut out: Vec<Hint> = Vec::new();
        self.push_if(&mut out, has_files, Action::Edit, "edit");
        self.push_if(
            &mut out,
            ops.stage,
            Action::Stage,
            if ops.stage_unstages {
                "unstage"
            } else {
                "stage"
            },
        );
        self.push_if(&mut out, ops.unstage && !ops.stage_unstages, Action::Unstage, "unstage");
        self.push_if(&mut out, ops.discard, Action::Discard, "discard");
        self.push_if(&mut out, worktree && self.has_staged(), Action::Commit, "commit");
        self.push_if(&mut out, worktree && has_files, Action::Annotate, "note");
        self.push_if(&mut out, self.notes.len() > 0, Action::NotesView, "notes");
        self.push_hint(&mut out, Action::ToggleScope, other.as_str());
        self.push_hint(&mut out, Action::Log, "log");
        self.push_hint(&mut out, Action::Help, "help");
        self.push_hint(&mut out, Action::Quit, "quit");
        assert(deep(out@) =~= self.file_hints());
        out
    }

    /// The footer's hints.
    pub fn footer_hints(&self, width: usize) -> (r: Line)
        ensures
            r.deep_view() == plain_line(hint_row(self.hints(), width as nat)),
    {
        broadcast use group_deep;

        let mut out: Vec<Hint> = Vec::new();
        match self.mode {
            Mode::Log => {
                if self.commits.len() > 0 {
                    self.push_hint(&mut out, Action::Edit, "show commit");
                    self.push_hint(&mut out, Action::CommitMessage, "message");
                }
                self.push_hint(
                    &mut out,
                    Action::ToggleScope,
                    if self.log_branch_only {
                        "all commits"
                    } else {
                        "branch only"
                    },
                );
                self.push_hint(&mut out, Action::Quit, "back");
                self.push_hint(&mut out, Action::Help, "help");
            },
            Mode::CommitFiles => {
                if self.entries.len() > 0 {
                    self.push_hint(&mut out, Action::Edit, "edit");
                    self.push_hint(&mut out, Action::HalfPageDown, "scroll");
                }
                self.push_hint(&mut out, Action::CommitMessage, "message");
                self.push_hint(&mut out, Action::Quit, "back");
                self.push_hint(&mut out, Action::Help, "help");
            },
            Mode::Notes => {
                self.push_hint(&mut out, Action::Edit, "edit note");
                self.push_hint(&mut out, Action::Delete, "delete");
                self.push_hint(&mut out, Action::SendNotes, "send");
                self.push_hint(&mut out, Action::Quit, "back");
                self.push_hint(&mut out, Action::Help, "help");
            },
            Mode::Files => {
                out = self.hints_of_files();
            },
        }
        assert(deep(out@) =~= self.hints());
        hint_line(&out, width)
    }

    /// The footer: what there is to say, while it is fresh, else the keys.
    pub open spec fn footer_line(self, width: nat) -> LineV {
        match self.status_msg {
            Some(m) if self.now - m.1 < STATUS_MS => plain_line(
                seq![span(" "@ + m.0@, colored(accent()))],
            ),
            _ => plain_line(hint_row(self.hints(), width)),
        }
    }

    pub fn render_footer(&self, width: u16) -> (r: Line)
        ensures
            r.deep_view() == self.footer_line(width as nat),
    {
        broadcast use group_deep;

        match self.active_status() {
            Some(msg) => {
                let mut spans: Vec<Span> = Vec::new();
                spans.push(Span::styled(concat2(" ", msg), Style::new().fg(accent())));
                assert(deep(spans@) =~= seq![span(" "@ + msg@, colored(accent()))]);
                line_of(spans)
            },
            None => self.footer_hints(width as usize),
        }
    }
}

// ---- the help ----------------------------------------------------------------------------------

/// The actions of the help, in reading order, and what they do.
pub open spec fn help_table() -> Seq<(Action, Seq<char>)> {
    seq![
        (Action::Down, "move down"@),
        (Action::Up, "move up"@),
        (Action::Top, "jump to top"@),
        (Action::Bottom, "jump to bottom"@),
        (Action::Edit, "open in editor"@),
        (Action::ToggleScope, "compare: uncommitted / vs base branch"@),
        (Action::Stage, "stage / unstage file or folder"@),
        (Action::Unstage, "unstage file or folder"@),
        (Action::Discard, "discard changes (file or folder)"@),
        (Action::Commit, "commit"@),
        (Action::Log, "commit history"@),
        (Action::Annotate, "add review note"@),
        (Action::SendNotes, "send notes to an agent"@),
        (Action::Select, "select lines (preview)"@),
        (Action::ToggleThread, "collapse / expand a thread (preview)"@),
        (Action::CommitMessage, "full commit message (log view)"@),
        (Action::ScrollDown, "scroll diff down"@),
        (Action::ScrollUp, "scroll diff up"@),
        (Action::HalfPageDown, "half page down"@),
        (Action::HalfPageUp, "half page up"@),
        (Action::DiffTop, "diff top"@),
        (Action::DiffBottom, "diff bottom"@),
        (Action::Refresh, "refresh"@),
        (Action::Help, "help"@),
        (Action::Quit, "back / quit"@),
    ]
}

/// A line of the help.
pub open spec fn help_line(key: Seq<char>, label: Seq<char>) -> LineV {
    plain_line(
        seq![
            span(" "@ + pad_left(key, 8) + "  "@, colored(info())),
            span(label, Style::plain()),
        ],
    )
}

impl App {
    /// The lines of the help; an action without a key has none.
    pub open spec fn help_lines_of(self, table: Seq<(Action, Seq<char>)>) -> Seq<LineV>
        decreases table.len(),
    {
        if table.len() == 0 {
            Seq::empty()
        } else {
            let s = self.help_lines_of(table.drop_last());
            let key = first_text(self.keys.entries(), table.last().0);
            if key.len() == 0 {
                s
            } else {
                s.push(help_line(key, table.last().1))
            }
        }
    }

    fn push_help(&self, out: &mut Vec<Line>, action: Action, label: &str, Ghost(before): Ghost<Seq<(Action, Seq<char>)>>)
        requires
            deep(old(out)@) == self.help_lines_of(before),
        ensures
            deep(final(out)@) == self.help_lines_of(before.push((action, label@))),
    {
        broadcast use group_deep;

        assert(before.push((action, label@)).drop_last() =~= before);
        let key: String = self.keys.hint(action);
        if key.as_str().unicode_len() > 0 {
            let mut spans: Vec<Span> = Vec::new();
            let padded: String = padded_left(key.as_str(), 8);
            spans.push(Span::styled(concat3(" ", padded.as_str(), "  "), Style::new().fg(info())));
            spans.push(Span::raw(label.to_owned()));
            assert(deep(spans@) =~= seq![
                span(" "@ + pad_left(key@, 8) + "  "@, colored(info())),
                span(label@, Style::plain()),
            ]);
            out.push(line_of(spans));
        }
    }

    pub fn help_lines(&self) -> (r: Vec<Line>)
        ensures
            deep(r@) == self.help_lines_of(help_table()),
    {
        broadcast use group_deep;

        let mut out: Vec<Line> = Vec::new();
        let ghost t = help_table();
        proof {
            assert forall|i: int| 0 <= i < t.len() implies #[trigger] t.take(i).push(t[i]) == t.take(
                i + 1,
            ) by {
                assert(t.take(i).push(t[i]) =~= t.take(i + 1));
            }
            assert(t.take(0) =~= Seq::empty());
            assert(t.take(25) =~= t);
        }
        self.push_help(&mut out, Action::Down, "move down", Ghost(t.take(0)));
        self.push_help(&mut out, Action::Up, "move up", Ghost(t.take(1)));
        self.push_help(&mut out, Action::Top, "jump to top", Ghost(t.take(2)));
        self.push_help(&mut out, Action::Bottom, "jump to bottom", Ghost(t.take(3)));
        self.push_help(&mut out, Action::Edit, "open in editor", Ghost(t.take(4)));
        self.push_help(
            &mut out,
            Action::ToggleScope,
            "compare: uncommitted / vs base branch",
            Ghost(t.take(5)),
        );
        self.push_help(&mut out, Action::Stage, "stage / unstage file or folder", Ghost(t.take(6)));
        self.push_help(&mut out, Action::Unstage, "unstage file or folder", Ghost(t.take(7)));
        self.push_help(
            &mut out,
            Action::Discard,
            "discard changes (file or folder)",
            Ghost(t.take(8)),
        );
        self.push_help(&mut out, Action::Commit, "commit", Ghost(t.take(9)));
        self.push_help(&mut out, Action::Log, "commit history", Ghost(t.take(10)));
        self.push_help(&mut out, Action::Annotate, "add review note", Ghost(t.take(11)));
        self.push_help(&mut out, Action::SendNotes, "send notes to an agent", Ghost(t.take(12)));
        self.push_help(&mut out, Action::Select, "select lines (preview)", Ghost(t.take(13)));
        self.push_help(
            &mut out,
            Action::ToggleThread,
            "collapse / expand a thread (preview)",
            Ghost(t.take(14)),
        );
        self.push_help(
            &mut out,
            Action::CommitMessage,
            "full commit message (log view)",
            Ghost(t.take(15)),
        );
        self.push_help(&mut out, Action::ScrollDown, "scroll diff down", Ghost(t.take(16)));
        self.push_help(&mut out, Action::ScrollUp, "scroll diff up", Ghost(t.take(17)));
        self.push_help(&mut out, Action::HalfPageDown, "half page down", Ghost(t.take(18)));
        self.push_help(&mut out, Action::HalfPageUp, "half page up", Ghost(t.take(19)));
        self.push_help(&mut out, Action::DiffTop, "diff top", Ghost(t.take(20)));
        self.push_help(&mut out, Action::DiffBottom, "diff bottom", Ghost(t.take(21)));
        self.push_help(&mut out, Action::Refresh, "refresh", Ghost(t.take(22)));
        self.push_help(&mut out, Action::Help, "help", Ghost(t.take(23)));
        self.push_help(&mut out, Action::Quit, "back / quit", Ghost(t.take(24)));
        out
    }
}

// ---- windows ---------------------------------------------------------------------------------

/// A part of the screen.
#[derive(Debug, Clone, Copy, PartialEq, Eq, Structural)]
pub struct Rect {
    pub x: u16,
    pub y: u16,
    pub width: u16,
    pub height: u16,
}

/// A part of an area, as large as it can be up to a size, in its middle.
pub fn centered_rect(area: Rect, w: u16, h: u16) -> (r: Rect)
    requires
        area.x + area.width <= u16::MAX,
        area.y + area.height <= u16::MAX,
    ensures
        r.width == if w < area.width {
            w
        } else {
            area.width
        },
        r.height == if h < area.height {
            h
        } else {
            area.height
        },
        r.x == area.x + (area.width - r.width) / 2,
        r.y == area.y + (area.height - r.height) / 2,
{
    let w: u16 = if w < area.width {
        w
    } else {
        area.width
    };
    let h: u16 = if h < area.height {
        h
    } else {
        area.height
    };
    Rect {
        x: area.x + (area.width - w) / 2,
        y: area.y + (area.height - h) / 2,
        width: w,
        height: h,
    }
}

// ---- laws --------------------------------------------------------------------------------------

/// The hints never take more room than there is.
pub proof fn law_hints_fit(s: Seq<HintV>, width: nat, n: int)
    requires
        0 <= n <= s.len(),
    ensures
        taken(s, width, n).used <= width,
    decreases n,
{
    if n > 0 {
        law_hints_fit(s, width, n - 1);
    }
}

/// However narrow the pane, the hint for help is there as long as it fits by
/// itself.
pub proof fn law_help_survives(s: Seq<HintV>, width: nat, n: int)
    requires
        help_place(s, 0) < n <= s.len(),
        plus(hint_cells(s[help_place(s, 0)]), 2) <= width < usize::MAX,
    ensures
        exists|i: int|
            0 <= i < taken(s, width, n).kept.len() && (#[trigger] taken(s, width, n).kept[i]).label
                == "help"@,
    decreases n,
{
    let help = help_place(s, 0);
    lemma_help_place(s, 0);
    let t = taken(s, width, n);
    if n - 1 == help {
        lemma_room_for_help(s, width, help);
        assert(t.kept[t.kept.len() - 1] == s[help]);
    } else {
        law_help_survives(s, width, n - 1);
        let p = taken(s, width, n - 1);
        let i = choose|i: int| 0 <= i < p.kept.len() && (#[trigger] p.kept[i]).label == "help"@;
        assert(t.kept[i] == p.kept[i]);
    }
}

proof fn lemma_help_place(s: Seq<HintV>, i: int)
    requires
        0 <= i <= s.len(),
    ensures
        i <= help_place(s, i) <= s.len(),
        help_place(s, i) < s.len() ==> s[help_place(s, i)].label == "help"@,
        forall|k: int| i <= k < help_place(s, i) ==> (#[trigger] s[k]).label != "help"@,
    decreases s.len() - i,
{
    if i < s.len() && s[i].label != "help"@ {
        lemma_help_place(s, i + 1);
    }
}

/// Until help comes, room for it is left.
proof fn lemma_room_for_help(s: Seq<HintV>, width: nat, n: int)
    requires
        0 <= n <= help_place(s, 0) < s.len(),
        plus(hint_cells(s[help_place(s, 0)]), 2) <= width < usize::MAX,
    ensures
        plus(taken(s, width, n).used, plus(hint_cells(s[help_place(s, 0)]), 2)) <= width,
        taken(s, width, n).kept.len() == 0 ==> taken(s, width, n).used == 0,
    decreases n,
{
    if n > 0 {
        lemma_room_for_help(s, width, n - 1);
        lemma_help_place(s, 0);
        assert(s[n - 1].label != "help"@);
    }
}

} // verus!
