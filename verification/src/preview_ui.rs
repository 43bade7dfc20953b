//! How the diff pane reads around the diff: its header, its messages and its
//! footer.

use vstd::prelude::*;
use vstd::utf8::encode_scalar;

use crate::card::{dim_style, minus};
use crate::git::{ChangeKind, Scope};
use crate::keymap::{first_text, Action};
use crate::list_footer::{
    cells_of_hint, hint_cells, hint_of, hint_spans, spans_of_hints, Hint, HintV,
};
use crate::list_ui::{colored, line_of, minus_of, plain_line};
use crate::preview::{PreviewApp, ShowReq, State};
use crate::style::{span, Color, Line, Span, SpanV, Style};
use crate::text::{
    chars_of, concat2, concat3, decimal, decimal_of, deep, group_deep, rep, repeat_char, string_of,
};
use crate::wrap::{plus, plus_of, text_cells, text_width};

verus! {

/// The characters of a text that end within its first `room` bytes.
pub open spec fn within_bytes(s: Seq<char>, room: int) -> Seq<char>
    decreases s.len(),
{
    if s.len() == 0 || encode_scalar(s[0] as u32).len() > room {
        Seq::empty()
    } else {
        seq![s[0]] + within_bytes(s.skip(1), room - encode_scalar(s[0] as u32).len())
    }
}

/// The first seven bytes of a commit's name, as far as they are whole characters.
pub open spec fn short_sha(s: Seq<char>) -> Seq<char> {
    within_bytes(s, 7)
}

fn bytes_of(c: char) -> (r: usize)
    ensures
        r == encode_scalar(c as u32).len(),
        0 < r <= 4,
{
    let u: u32 = c as u32;
    if u <= 0x7f {
        1
    } else if u <= 0x7ff {
        2
    } else if u <= 0xffff {
        3
    } else {
        4
    }
}

fn short_sha_of(sha: &str) -> (r: String)
    ensures
        r@ == short_sha(sha@),
{
    let v: Vec<char> = chars_of(sha);
    let mut n: usize = 0;
    let mut room: usize = 7;
    assert(v@.take(0) + within_bytes(v@.skip(0), 7) =~= within_bytes(v@, 7)) by {
        assert(v@.skip(0) =~= v@);
    }
    while n < v.len() && bytes_of(v[n]) <= room
        invariant
            n <= v@.len(),
            room <= 7,
            v@.take(n as int) + within_bytes(v@.skip(n as int), room as int) == within_bytes(v@, 7),
        decreases v@.len() - n,
    {
        let ghost rest = v@.skip(n as int);
        let used: usize = bytes_of(v[n]);
        assert(rest.skip(1) =~= v@.skip(n + 1));
        assert(v@.take(n + 1) =~= v@.take(n as int).push(rest[0]));
        assert(v@.take(n as int) + (seq![rest[0]] + within_bytes(rest.skip(1), room - used)) =~= v@.take(
            n + 1,
        ) + within_bytes(v@.skip(n + 1), room - used));
        room -= used;
        n += 1;
    }
    assert(within_bytes(v@.skip(n as int), room as int) =~= Seq::<char>::empty());
    assert(v@.take(n as int) =~= within_bytes(v@, 7));
    string_of(v.as_slice(), 0, n)
}

impl PreviewApp {
    /// What the diff compares, in the list pane's words.
    pub open spec fn scope_words(self, req: ShowReq) -> Seq<char> {
        match (req.commit, req.scope) {
            (Some(sha), _) => "commit "@ + short_sha(sha@),
            (None, Scope::Worktree) => "uncommitted"@,
            (None, Scope::Branch) => "vs "@ + match self.base {
                Some(b) => b@,
                None => "base"@,
            },
        }
    }

    /// The left of the header: the file, and what is compared.
    pub open spec fn header_words(self) -> Seq<char> {
        match self.current {
            Some(req) => " "@ + req.file@ + "  ["@ + self.scope_words(req) + "]"@ + (if req.cached
                && req.scope == Scope::Worktree {
                " [staged]"@
            } else {
                ""@
            }) + (if req.kind == ChangeKind::Deleted {
                " (deleted)"@
            } else {
                ""@
            }),
            None => " gitview: diff"@,
        }
    }

    /// The right of the header: where the cursor is.
    pub open spec fn place_words(self) -> Seq<char> {
        if self.active() {
            let at = decimal((self.view.cursor_line + 1) as nat) + "/"@ + decimal(
                self.view.doc@.len(),
            ) + " "@;
            match self.file_line() {
                Some(no) => "ln "@ + decimal(no as nat) + "  "@ + at,
                None => at,
            }
        } else {
            Seq::empty()
        }
    }

    fn scope_text(&self, req: &ShowReq) -> (r: String)
        ensures
            r@ == self.scope_words(*req),
    {
        match &req.commit {
            Some(sha) => {
                let short: String = short_sha_of(sha.as_str());
                concat2("commit ", short.as_str())
            },
            None => match req.scope {
                Scope::Worktree => "uncommitted".to_owned(),
                Scope::Branch => match &self.base {
                    Some(b) => concat2("vs ", b.as_str()),
                    None => concat2("vs ", "base"),
                },
            },
        }
    }

    pub fn header_left(&self) -> (r: String)
        ensures
            r@ == self.header_words(),
    {
        match &self.current {
            None => " gitview: diff".to_owned(),
            Some(req) => {
                let head: String = concat3(" ", req.file.as_str(), "  [");
                let mid: String = concat3(head.as_str(), self.scope_text(req).as_str(), "]");
                let staged: &str = if req.cached && req.scope == Scope::Worktree {
                    " [staged]"
                } else {
                    ""
                };
                let deleted: &str = if req.kind == ChangeKind::Deleted {
                    " (deleted)"
                } else {
                    ""
                };
                concat3(mid.as_str(), staged, deleted)
            },
        }
    }

    pub fn header_right(&self) -> (r: String)
        requires
            self.wf(),
            self.view.cursor_line < usize::MAX,
        ensures
            r@ == self.place_words(),
    {
        if !self.showing_diff() {
            let r: String = String::new();
            assert(r@ =~= self.place_words());
            return r;
        }
        let line: String = decimal_of((self.view.cursor_line + 1) as u64);
        let total: String = decimal_of(self.view.doc.len() as u64);
        let head: String = concat3(line.as_str(), "/", total.as_str());
        let at: String = concat2(head.as_str(), " ");
        match self.cursor_file_line() {
            Some(no) => {
                let ln: String = concat3("ln ", decimal_of(no as u64).as_str(), "  ");
                concat2(ln.as_str(), at.as_str())
            },
            None => at,
        }
    }

    /// The header of the pane.
    pub open spec fn header_spans(self, width: int) -> Seq<SpanV> {
        let left = self.header_words();
        let right = self.place_words();
        seq![
            span(left, Style { bold: true, ..Style::plain() }),
            span(
                rep(
                    ' ',
                    minus(width, plus(text_cells(left) as nat, text_cells(right) as nat) as int) as nat,
                ),
                Style::plain(),
            ),
            span(right, dim_style()),
        ]
    }

    pub fn render_header(&self, width: u16) -> (r: Line)
        requires
            self.wf(),
            self.view.cursor_line < usize::MAX,
        ensures
            r.deep_view() == plain_line(self.header_spans(width as int)),
    {
        broadcast use group_deep;

        let left: String = self.header_left();
        let right: String = self.header_right();
        let used: usize = plus_of(text_width(left.as_str()), text_width(right.as_str()));
        let pad: usize = minus_of(width as usize, used);
        let mut spans: Vec<Span> = Vec::new();
        spans.push(Span::styled(left, Style::new().bold()));
        spans.push(Span::raw(repeat_char(' ', pad)));
        spans.push(Span::styled(right, dim_style()));
        assert(deep(spans@) =~= self.header_spans(width as int));
        line_of(spans)
    }

    /// What stands in place of a diff; none where there is one.
    pub open spec fn body_words(self) -> Option<Seq<char>> {
        match self.state {
            State::Splash(s) => Some(s@),
            State::Empty => Some(
                if self.current matches Some(c) && c.cached {
                    "(no staged changes)"@
                } else {
                    "(no changes in this view)"@
                },
            ),
            State::Binary => Some("(binary file)"@),
            State::Error(m) => Some(" diff error: "@ + m@),
            State::Diff => None,
            State::Message(_) => None,
        }
    }

    pub fn body_message(&self) -> (r: Option<String>)
        ensures
            r.deep_view() == self.body_words(),
    {
        match &self.state {
            State::Splash(s) => Some((*s).to_owned()),
            State::Empty => {
                let cached: bool = match &self.current {
                    Some(c) => c.cached,
                    None => false,
                };
                Some(
                    if cached {
                        "(no staged changes)".to_owned()
                    } else {
                        "(no changes in this view)".to_owned()
                    },
                )
            },
            State::Binary => Some("(binary file)".to_owned()),
            State::Error(m) => Some(concat2(" diff error: ", m.as_str())),
            State::Diff => None,
            State::Message(_) => None,
        }
    }

    // ---- the footer --------------------------------------------------------------------------

    /// Whether notes can be written on what is shown.
    pub open spec fn annotatable(self) -> bool {
        self.active() && (self.current matches Some(c) && c.commit is None && c.scope
            == Scope::Worktree)
    }

    pub open spec fn key_for(self, action: Action) -> Seq<char> {
        first_text(self.keys.entries(), action)
    }

    /// What the keys do here. Only what applies is offered.
    pub open spec fn hints(self) -> Seq<HintV> {
        (if self.active() {
            seq![hint_of("j/k"@, "move"@)]
        } else {
            seq![]
        }) + (if self.annotatable() {
            seq![
                hint_of(self.key_for(Action::Select), "select"@),
                hint_of(self.key_for(Action::Annotate), "note"@),
            ]
        } else {
            seq![]
        }) + (if self.store.threads@.len() > 0 {
            seq![
                hint_of(
                    self.key_for(Action::SendNotes),
                    "send ("@ + decimal(self.store.threads@.len()) + ")"@,
                ),
            ]
        } else {
            seq![]
        }) + (if self.active() {
            seq![
                hint_of(
                    self.key_for(Action::DiffTop) + "/"@ + self.key_for(Action::DiffBottom),
                    "ends"@,
                ),
            ]
        } else {
            seq![]
        }) + seq![hint_of(self.key_for(Action::Quit), "quit"@)]
    }

    fn hints_of(&self) -> (r: Vec<Hint>)
        ensures
            deep(r@) == self.hints(),
    {
        broadcast use group_deep;

        let has_diff: bool = self.showing_diff();
        let annotatable: bool = has_diff && match &self.current {
            Some(c) => c.commit.is_none() && c.scope == Scope::Worktree,
            None => false,
        };
        let mut out: Vec<Hint> = Vec::new();
        if has_diff {
            out.push(Hint { key: "j/k".to_owned(), label: "move".to_owned() });
        }
        if annotatable {
            out.push(Hint { key: self.keys.hint(Action::Select), label: "select".to_owned() });
            out.push(Hint { key: self.keys.hint(Action::Annotate), label: "note".to_owned() });
        }
        if self.store.threads.len() > 0 {
            let n: String = decimal_of(self.store.threads.len() as u64);
            out.push(
                Hint {
                    key: self.keys.hint(Action::SendNotes),
                    label: concat3("send (", n.as_str(), ")"),
                },
            );
        }
        if has_diff {
            let ends: String = concat3(
                self.keys.hint(Action::DiffTop).as_str(),
                "/",
                self.keys.hint(Action::DiffBottom).as_str(),
            );
            out.push(Hint { key: ends, label: "ends".to_owned() });
        }
        out.push(Hint { key: self.keys.hint(Action::Quit), label: "quit".to_owned() });
        assert(deep(out@) =~= self.hints());
        out
    }

    /// The footer: what the box takes while it is open, else a fresh message,
    /// else what the keys do.
    pub open spec fn footer_spans(self, width: nat) -> Seq<SpanV> {
        let fresh = match self.flash {
            Some(f) if self.now - f.1 < crate::preview::FLASH_MS => Some(f.0@),
            _ => None,
        };
        if self.composer is Some {
            seq![
                span(
                    " enter save · shift+enter / ctrl+j newline · esc cancel"@,
                    colored(Color::Yellow),
                ),
            ]
        } else if fresh is Some {
            seq![span(" "@ + fresh->0, colored(Color::Yellow))]
        } else {
            let s = self.hints();
            hint_spans(s.take(fitting(s, width, s.len() as int).0), colored(Color::Cyan))
        }
    }

    pub fn render_footer(&self, width: u16) -> (r: Line)
        ensures
            r.deep_view() == plain_line(self.footer_spans(width as nat)),
    {
        broadcast use group_deep;

        let mut spans: Vec<Span> = Vec::new();
        if self.composer.is_some() {
            spans.push(
                Span::styled(
                    " enter save · shift+enter / ctrl+j newline · esc cancel".to_owned(),
                    Style::new().fg(Color::Yellow),
                ),
            );
            assert(deep(spans@) =~= self.footer_spans(width as nat));
            return line_of(spans);
        }
        match self.active_flash() {
            Some(msg) => {
                spans.push(Span::styled(concat2(" ", msg), Style::new().fg(Color::Yellow)));
                assert(deep(spans@) =~= self.footer_spans(width as nat));
                return line_of(spans);
            },
            None => {},
        }
        let mut hints: Vec<Hint> = self.hints_of();
        let ghost all = deep(hints@);
        let n: usize = fit(&hints, width as usize);
        hints.truncate(n);
        assert(deep(hints@) =~= all.take(n as int));
        line_of(spans_of_hints(&hints, Style::new().fg(Color::Cyan)))
    }
}

/// How many of the first `n` hints fit side by side, and their cells. Those
/// behind one that does not fit are left out too.
pub open spec fn fitting(s: Seq<HintV>, width: nat, n: int) -> (int, nat)
    decreases n,
{
    if n <= 0 {
        (0, 0)
    } else {
        let (k, used) = fitting(s, width, n - 1);
        let w = plus(
            hint_cells(s[n - 1]),
            if n > 1 {
                2
            } else {
                0
            },
        );
        if k < n - 1 || plus(used, w) > width {
            (k, used)
        } else {
            (n, plus(used, w))
        }
    }
}

fn fit(hints: &Vec<Hint>, width: usize) -> (r: usize)
    ensures
        r == fitting(deep(hints@), width as nat, hints@.len() as int).0,
        r <= hints@.len(),
{
    let ghost all = deep(hints@);
    let mut used: usize = 0;
    let mut i: usize = 0;
    while i < hints.len()
        invariant
            i <= hints@.len(),
            all == deep(hints@),
            fitting(all, width as nat, i as int) == (i as int, used as nat),
        decreases hints@.len() - i,
    {
        assert(all[i as int] == hints@[i as int].deep_view());
        let w: usize = plus_of(
            cells_of_hint(&hints[i]),
            if i > 0 {
                2
            } else {
                0
            },
        );
        if plus_of(used, w) > width {
            proof {
                lemma_no_more_fit(all, width as nat, i + 1, hints@.len() as int);
            }
            return i;
        }
        used = plus_of(used, w);
        i += 1;
    }
    i
}

proof fn lemma_no_more_fit(s: Seq<HintV>, width: nat, i: int, n: int)
    requires
        1 <= i <= n,
        fitting(s, width, i).0 < i,
    ensures
        fitting(s, width, n) == fitting(s, width, i),
    decreases n,
{
    if n > i {
        lemma_no_more_fit(s, width, i, n - 1);
    }
}

} // verus!
