//! How the list pane reads: its header, its rows, its footer and its help.

use vstd::prelude::*;

use crate::card::{cells_of_spans, dim_style, minus};
use crate::config::Theme;
use crate::elide::{cut_tail, elide_tail};
use crate::git::{EntryV, FileEntry, Scope};
use crate::list::App;
use crate::list_rows::Mode;
use crate::style::{bad, ok, span, Color, Line, LineV, Span, SpanV, Style};
use crate::text::{
    after_prefix, chars_of, concat2, concat3, decimal, decimal_of, deep, group_deep, has_text, join,
    join_of, matches_at, occurs_at, rep, repeat_char, string_of, strip_prefix,
};
use crate::wrap::{plus, plus_of, spans_cells, text_cells, text_width};

verus! {

// ---- small things -----------------------------------------------------------------------

/// A text in capital letters.
pub uninterp spec fn upper_text(s: Seq<char>) -> Seq<char>;

/// `str::to_uppercase`: a function of the text.
#[verifier::external_body]
pub(crate) fn upper(s: &str) -> (r: String)
    ensures
        r@ == upper_text(s@),
{
    s.to_uppercase()
}

pub open spec fn colored(c: Color) -> Style {
    Style { fg: Some(c), ..Style::plain() }
}

pub open spec fn heading(c: Color) -> Style {
    Style { fg: Some(c), bold: true, ..Style::plain() }
}

pub open spec fn plain_line(spans: Seq<SpanV>) -> LineV {
    LineV { spans, style: Style::plain() }
}

pub(crate) fn minus_of(a: usize, b: usize) -> (r: usize)
    ensures
        r == minus(a as int, b as int),
{
    if a > b {
        a - b
    } else {
        0
    }
}

pub(crate) fn line_of(spans: Vec<Span>) -> (r: Line)
    ensures
        r.deep_view() == plain_line(deep(spans@)),
{
    Line { spans, style: Style::new() }
}

/// A line of one span.
pub(crate) fn one_line_of(content: String, style: Style) -> (r: Line)
    ensures
        r.deep_view() == plain_line(seq![span(content@, style)]),
{
    broadcast use group_deep;

    let mut spans: Vec<Span> = Vec::new();
    spans.push(Span::styled(content, style));
    assert(deep(spans@) =~= seq![span(content@, style)]);
    line_of(spans)
}

/// The surface behind the header and the footer.
pub open spec fn bar_color(theme: Theme) -> Color {
    if theme == Theme::Light {
        Color::Rgb(0xe6, 0xe9, 0xef)
    } else {
        Color::Rgb(0x31, 0x32, 0x44)
    }
}

pub fn bar_bg(theme: Theme) -> (r: Color)
    ensures
        r == bar_color(theme),
{
    if theme.is_light() {
        Color::Rgb(0xe6, 0xe9, 0xef)
    } else {
        Color::Rgb(0x31, 0x32, 0x44)
    }
}

/// The surface behind the selected row.
pub fn highlight_bg(theme: Theme) -> (r: Color)
    ensures
        r == if theme == Theme::Light {
            Color::Rgb(0xd9, 0xde, 0xe8)
        } else {
            Color::Rgb(0x3d, 0x3f, 0x54)
        },
{
    if theme.is_light() {
        Color::Rgb(0xd9, 0xde, 0xe8)
    } else {
        Color::Rgb(0x3d, 0x3f, 0x54)
    }
}

// ---- labels of commits ---------------------------------------------------------------------

/// The last place where `t` stands in `s` at `i` or before, or -1.
pub open spec fn last_place(s: Seq<char>, t: Seq<char>, i: int) -> int
    decreases i + 1,
{
    if i < 0 {
        -1
    } else if occurs_at(s, t, i) {
        i
    } else {
        last_place(s, t, i - 1)
    }
}

/// What stands behind the last arrow.
pub open spec fn after_arrow(s: Seq<char>) -> Seq<char> {
    let k = last_place(s, " -> "@, s.len() as int);
    if k < 0 {
        s
    } else {
        s.skip(k + 4)
    }
}

/// A ref as it is shown: the branch that HEAD is on, without `origin/`.
pub open spec fn ref_name(s: Seq<char>) -> Seq<char> {
    match after_prefix(after_arrow(s), "origin/"@) {
        Some(t) => t,
        None => after_arrow(s),
    }
}

/// The names of refs, each once.
pub open spec fn ref_names(refs: Seq<Seq<char>>) -> Seq<Seq<char>>
    decreases refs.len(),
{
    if refs.len() == 0 {
        Seq::empty()
    } else {
        let s = ref_names(refs.drop_last());
        let n = ref_name(refs.last());
        if s.contains(n) {
            s
        } else {
            s.push(n)
        }
    }
}

/// The label of a commit: nothing where no ref points at it.
pub open spec fn label_text(refs: Seq<Seq<char>>) -> Seq<char> {
    if refs.len() == 0 {
        Seq::empty()
    } else {
        "["@ + join(ref_names(refs), ", "@) + "] "@
    }
}

fn name_of_ref(s: &str) -> (r: String)
    ensures
        r@ == ref_name(s@),
{
    proof {
        reveal_strlit(" -> ");
    }
    let v: Vec<char> = chars_of(s);
    let arrow: Vec<char> = chars_of(" -> ");
    let n: usize = v.len();
    let mut i: usize = n;
    let mut tail: Option<String> = None;
    let mut more: bool = true;
    while more
        invariant
            i <= n == v@.len(),
            v@ == s@,
            arrow@ == " -> "@,
            arrow@.len() == 4,
            more ==> tail is None && last_place(s@, " -> "@, n as int) == last_place(
                s@,
                " -> "@,
                i as int,
            ),
            !more ==> match tail {
                Some(t) => last_place(s@, " -> "@, n as int) >= 0 && t@ == s@.skip(
                    last_place(s@, " -> "@, n as int) + 4,
                ),
                None => last_place(s@, " -> "@, n as int) == -1,
            },
        decreases i, if more { 1int } else { 0int },
    {
        if matches_at(&v, &arrow, i) {
            let t: String = string_of(&v, i + 4, n);
            assert(t@ =~= s@.skip(i + 4));
            tail = Some(t);
            more = false;
        } else if i == 0 {
            assert(last_place(s@, " -> "@, -1) == -1);
            more = false;
        } else {
            i -= 1;
        }
    }
    let branch: String = match tail {
        Some(t) => t,
        None => s.to_owned(),
    };
    match strip_prefix(branch.as_str(), "origin/") {
        Some(t) => t,
        None => branch,
    }
}

pub fn ref_label(refs: &[String]) -> (r: String)
    ensures
        r@ == label_text(deep(refs@)),
{
    broadcast use group_deep;

    let ghost all = deep(refs@);
    if refs.len() == 0 {
        let r: String = String::new();
        assert(r@ =~= label_text(all));
        return r;
    }
    let mut names: Vec<String> = Vec::new();
    let n: usize = refs.len();
    let mut i: usize = 0;
    while i < n
        invariant
            i <= n == refs@.len(),
            all == deep(refs@),
            deep(names@) == ref_names(all.take(i as int)),
        decreases n - i,
    {
        assert(all.take(i + 1).drop_last() =~= all.take(i as int));
        assert(all[i as int] == refs@[i as int]@);
        let name: String = name_of_ref(refs[i].as_str());
        if !has_text(&names, name.as_str()) {
            names.push(name);
        }
        i += 1;
    }
    let inner: String = join_of(names.as_slice(), ", ");
    concat3("[", inner.as_str(), "] ")
}

// ---- the header ----------------------------------------------------------------------------

/// From this width on, the header says how many commits the branch has.
pub const COMMIT_COUNT_MIN_WIDTH: usize = 46;

impl App {
    /// What is compared, in words.
    pub open spec fn scope_words(self) -> Seq<char> {
        match self.scope {
            Scope::Worktree => "uncommitted"@,
            Scope::Branch => "vs "@ + self.base_text(),
        }
    }

    pub open spec fn branch_words(self) -> Seq<char> {
        match self.branch {
            Some(b) => b@,
            None => "DETACHED"@,
        }
    }

    /// The left of the header: what the pane is busy with, or what it shows.
    pub open spec fn header_words(self, wide: bool) -> Seq<char> {
        match self.busy {
            Some(what) => " "@ + what@,
            None => match self.mode {
                Mode::Log => if self.log_branch_only {
                    " log · vs "@ + self.base_text() + " · "@ + self.branch_words()
                } else if self.cfg.log_refs@.len() > 0 {
                    " log · "@ + join(deep(self.cfg.log_refs@), " "@) + " + "@ + self.branch_words()
                } else {
                    " log · all commits · "@ + self.branch_words()
                },
                Mode::CommitFiles => match self.commit {
                    Some(c) => " "@ + c.short@ + " "@ + c.subject@,
                    None => " commit"@,
                },
                Mode::Notes => " review notes"@,
                Mode::Files => " "@ + self.scope_words() + " · "@ + self.branch_words() + (match (
                    self.scope,
                    wide,
                    self.branch_commits,
                ) {
                    (Scope::Branch, true, Some(n)) => " · "@ + decimal(n as nat) + " commit"@ + (
                    if n == 1 {
                        ""@
                    } else {
                        "s"@
                    }),
                    _ => Seq::empty(),
                }),
            },
        }
    }

    pub fn scope_label(&self) -> (r: String)
        ensures
            r@ == self.scope_words(),
    {
        match self.scope {
            Scope::Worktree => "uncommitted".to_owned(),
            Scope::Branch => concat2("vs ", self.base_or_default().as_str()),
        }
    }

    fn branch_name(&self) -> (r: String)
        ensures
            r@ == self.branch_words(),
    {
        match &self.branch {
            Some(b) => b.as_str().to_owned(),
            None => "DETACHED".to_owned(),
        }
    }

    fn files_header(&self, wide: bool) -> (r: String)
        requires
            self.busy is None,
            self.mode == Mode::Files,
        ensures
            r@ == self.header_words(wide),
    {
        let head: String = concat3(" ", self.scope_label().as_str(), " · ");
        let mut left: String = concat2(head.as_str(), self.branch_name().as_str());
        let ghost start = left@;
        if self.scope == Scope::Branch && wide {
            match self.branch_commits {
                Some(n) => {
                    let count: String = concat3(" · ", decimal_of(n as u64).as_str(), " commit");
                    left.push_str(count.as_str());
                    left.push_str(if n == 1 { "" } else { "s" });
                    proof {
                        assert(left@ =~= self.header_words(wide));
                    }
                },
                None => {},
            }
        }
        assert(left@ =~= self.header_words(wide));
        left
    }

    pub fn header_left(&self, wide: bool) -> (r: String)
        ensures
            r@ == self.header_words(wide),
    {
        match &self.busy {
            Some(what) => {
                return concat2(" ", what.as_str());
            },
            None => {},
        }
        match self.mode {
            Mode::Log => {
                let branch: String = self.branch_name();
                if self.log_branch_only {
                    let head: String = concat3(" log · vs ", self.base_or_default().as_str(), " · ");
                    concat2(head.as_str(), branch.as_str())
                } else if self.cfg.log_refs.len() > 0 {
                    let refs: String = join_of(self.cfg.log_refs.as_slice(), " ");
                    let head: String = concat3(" log · ", refs.as_str(), " + ");
                    concat2(head.as_str(), branch.as_str())
                } else {
                    concat2(" log · all commits · ", branch.as_str())
                }
            },
            Mode::CommitFiles => match &self.commit {
                Some(c) => {
                    let head: String = concat3(" ", c.short.as_str(), " ");
                    concat2(head.as_str(), c.subject.as_str())
                },
                None => " commit".to_owned(),
            },
            Mode::Notes => " review notes".to_owned(),
            Mode::Files => self.files_header(wide),
        }
    }
}

/// All lines added in files that are text.
pub open spec fn adds_of(entries: Seq<EntryV>) -> nat
    decreases entries.len(),
{
    if entries.len() == 0 {
        0
    } else {
        adds_of(entries.drop_last()) + match entries.last().adds {
            Some(n) => n as nat,
            None => 0,
        }
    }
}

/// All lines removed in files that are text.
pub open spec fn dels_of(entries: Seq<EntryV>) -> nat
    decreases entries.len(),
{
    if entries.len() == 0 {
        0
    } else {
        dels_of(entries.drop_last()) + match entries.last().dels {
            Some(n) => n as nat,
            None => 0,
        }
    }
}

fn sums(entries: &Vec<FileEntry>) -> (r: (u64, u64))
    requires
        entries@.len() <= u32::MAX,
    ensures
        r.0 == adds_of(deep(entries@)),
        r.1 == dels_of(deep(entries@)),
{
    broadcast use group_deep;

    let ghost all = deep(entries@);
    let mut adds: u64 = 0;
    let mut dels: u64 = 0;
    let mut i: usize = 0;
    while i < entries.len()
        invariant
            i <= entries@.len() <= u32::MAX,
            all == deep(entries@),
            adds == adds_of(all.take(i as int)),
            dels == dels_of(all.take(i as int)),
            adds <= i * 0xffff_ffff,
            dels <= i * 0xffff_ffff,
        decreases entries@.len() - i,
    {
        assert(all.take(i + 1).drop_last() =~= all.take(i as int));
        assert(all[i as int] == entries@[i as int].deep_view());
        assert(i * 0xffff_ffff + 0xffff_ffff <= 0xffff_ffff * 0xffff_ffff) by (nonlinear_arith)
            requires
                i + 1 <= 0xffff_ffff,
        ;
        match entries[i].adds {
            Some(n) => {
                adds = adds + n as u64;
            },
            None => {},
        }
        match entries[i].dels {
            Some(n) => {
                dels = dels + n as u64;
            },
            None => {},
        }
        assert((i + 1) * 0xffff_ffff == i * 0xffff_ffff + 0xffff_ffff) by (nonlinear_arith);
        i += 1;
    }
    (adds, dels)
}

/// A count of changed lines behind a blank; nothing for none.
pub open spec fn count_spans(sign: Seq<char>, n: nat, c: Color) -> Seq<SpanV> {
    if n > 0 {
        seq![span(" "@, Style::plain()), span(sign + decimal(n), colored(c))]
    } else {
        Seq::empty()
    }
}

impl App {
    /// The right of the header: how much is listed.
    pub open spec fn header_counts(self) -> Seq<SpanV> {
        match self.mode {
            Mode::Log => seq![span(decimal(self.commits@.len()) + " commits "@, dim_style())],
            Mode::Notes => seq![span(decimal(self.notes@.len()) + " notes "@, dim_style())],
            _ => seq![span(decimal(self.entries@.len()) + " files"@, dim_style())] + count_spans(
                "+"@,
                adds_of(deep(self.entries@)),
                ok(),
            ) + count_spans("−"@, dels_of(deep(self.entries@)), bad()) + seq![
                span(" "@, Style::plain()),
            ],
        }
    }

    pub fn header_right_spans(&self) -> (r: Vec<Span>)
        requires
            self.entries@.len() <= u32::MAX,
        ensures
            deep(r@) == self.header_counts(),
    {
        broadcast use group_deep;

        let mut out: Vec<Span> = Vec::new();
        match self.mode {
            Mode::Log => {
                let n: String = decimal_of(self.commits.len() as u64);
                out.push(Span::styled(concat2(n.as_str(), " commits "), dim_style()));
            },
            Mode::Notes => {
                let n: String = decimal_of(self.notes.len() as u64);
                out.push(Span::styled(concat2(n.as_str(), " notes "), dim_style()));
            },
            _ => {
                let (adds, dels) = sums(&self.entries);
                let n: String = decimal_of(self.entries.len() as u64);
                out.push(Span::styled(concat2(n.as_str(), " files"), dim_style()));
                if adds > 0 {
                    out.push(Span::raw(" ".to_owned()));
                    let t: String = concat2("+", decimal_of(adds).as_str());
                    out.push(Span::styled(t, Style::new().fg(ok())));
                }
                if dels > 0 {
                    out.push(Span::raw(" ".to_owned()));
                    let t: String = concat2("−", decimal_of(dels).as_str());
                    out.push(Span::styled(t, Style::new().fg(bad())));
                }
                out.push(Span::raw(" ".to_owned()));
            },
        }
        assert(deep(out@) =~= self.header_counts());
        out
    }

    /// Whether the counts have to go so that the comparison can stay whole.
    pub open spec fn counts_dropped(self, width: int) -> bool {
        self.busy is None && self.mode == Mode::Files && minus(
            width,
            spans_cells(self.header_counts()) as int,
        ) < plus(text_cells(self.scope_words()) as nat, 2)
    }

    /// The header: what is shown, and how much.
    pub open spec fn header_spans(self, width: int) -> Seq<SpanV> {
        let right = if self.counts_dropped(width) {
            Seq::empty()
        } else {
            self.header_counts()
        };
        let rw = spans_cells(right);
        let left = cut_tail(
            self.header_words(width >= COMMIT_COUNT_MIN_WIDTH),
            minus(width, plus(rw, 1) as int) as nat,
        );
        seq![
            span(left, Style { bold: true, ..Style::plain() }),
            span(
                rep(' ', minus(width, plus(text_cells(left) as nat, rw) as int) as nat),
                Style::plain(),
            ),
        ] + right
    }

    pub fn render_header(&self, width: u16) -> (r: Line)
        requires
            self.entries@.len() <= u32::MAX,
        ensures
            r.deep_view() == plain_line(self.header_spans(width as int)),
    {
        broadcast use group_deep;

        let w: usize = width as usize;
        let left: String = self.header_left(w >= COMMIT_COUNT_MIN_WIDTH);
        let mut right: Vec<Span> = self.header_right_spans();
        let mut rw: usize = cells_of_spans(&right);
        let need: usize = plus_of(text_width(self.scope_label().as_str()), 2);
        if self.busy.is_none() && self.mode == Mode::Files && minus_of(w, rw) < need {
            right = Vec::new();
            rw = 0;
        }
        let ghost rv = deep(right@);
        let shown: String = elide_tail(left.as_str(), minus_of(w, plus_of(rw, 1)));
        let pad: usize = minus_of(w, plus_of(text_width(shown.as_str()), rw));
        let mut spans: Vec<Span> = Vec::new();
        spans.push(Span::styled(shown, Style::new().bold()));
        spans.push(Span::raw(repeat_char(' ', pad)));
        spans.append(&mut right);
        assert(deep(spans@) =~= self.header_spans(width as int));
        line_of(spans)
    }

    /// What stands in place of an empty list. One that could not be loaded says
    /// so, and how to try again.
    pub open spec fn empty_lines(self) -> Seq<LineV> {
        match self.load_error {
            Some(e) => seq![
                plain_line(seq![span(e@, colored(bad()))]),
                plain_line(seq![span("r retries"@, dim_style())]),
            ],
            None => seq![
                plain_line(
                    seq![
                        span(
                            match (self.mode, self.scope) {
                                (Mode::Log, _) => "no commits"@,
                                (Mode::CommitFiles, _) => "empty commit"@,
                                (Mode::Notes, _) => "no notes"@,
                                (_, Scope::Worktree) => "working tree clean — nothing uncommitted"@,
                                (_, Scope::Branch) => "no changes vs "@ + self.base_text(),
                            },
                            dim_style(),
                        ),
                    ],
                ),
            ],
        }
    }

    pub fn empty_message(&self) -> (r: Vec<Line>)
        ensures
            deep(r@) == self.empty_lines(),
    {
        broadcast use group_deep;

        let mut out: Vec<Line> = Vec::new();
        match &self.load_error {
            Some(e) => {
                out.push(one_line_of(e.as_str().to_owned(), Style::new().fg(bad())));
                out.push(one_line_of("r retries".to_owned(), dim_style()));
            },
            None => {
                let msg: String = match self.mode {
                    Mode::Log => "no commits".to_owned(),
                    Mode::CommitFiles => "empty commit".to_owned(),
                    Mode::Notes => "no notes".to_owned(),
                    Mode::Files => match self.scope {
                        Scope::Worktree => "working tree clean — nothing uncommitted".to_owned(),
                        Scope::Branch => concat2("no changes vs ", self.base_or_default().as_str()),
                    },
                };
                out.push(one_line_of(msg, dim_style()));
            },
        }
        assert(deep(out@) =~= self.empty_lines());
        out
    }
}

} // verus!
